//! Header fields of the `http` crate, and what is relied on of them.
use http::header::{InvalidHeaderName, MaxSizeReached};
use http::{HeaderMap, HeaderName, HeaderValue};
use vstd::prelude::*;
use vstd::string::*;

verus! {

/// `http::HeaderMap`, whose inside is not looked into.
#[verifier::external_type_specification]
#[verifier::external_body]
#[verifier::reject_recursive_types(T)]
pub struct ExHeaderMap<T>(http::HeaderMap<T>);

/// `http::HeaderName`, whose inside is not looked into.
#[verifier::external_type_specification]
#[verifier::external_body]
pub struct ExHeaderName(http::HeaderName);

/// `http::HeaderValue`, whose inside is not looked into.
#[verifier::external_type_specification]
#[verifier::external_body]
pub struct ExHeaderValue(http::HeaderValue);

/// `http::header::ToStrError`, which says only that a value is not plain text.
#[verifier::external_type_specification]
#[verifier::external_body]
pub struct ExToStrError(http::header::ToStrError);

/// `http::header::InvalidHeaderValue`, which says only that a text cannot be a value.
#[verifier::external_type_specification]
#[verifier::external_body]
pub struct ExInvalidHeaderValue(http::header::InvalidHeaderValue);

/// `http::header::MaxSizeReached`, which says only that a header map has no room.
#[verifier::external_type_specification]
#[verifier::external_body]
pub struct ExMaxSizeReached(http::header::MaxSizeReached);

/// `http::header::InvalidHeaderName`, which `http` gives also where a header map has no room.
#[verifier::external_type_specification]
#[verifier::external_body]
pub struct ExInvalidHeaderName(http::header::InvalidHeaderName);

/// The fields of an `http::HeaderMap`: under each name, in lower case, its values in order.
pub uninterp spec fn header_fields(headers: http::HeaderMap<http::HeaderValue>) -> Map<
    Seq<char>,
    Seq<Seq<u8>>,
>;

/// The text of an `http::HeaderName`, in lower case.
pub uninterp spec fn name_text(name: http::HeaderName) -> Seq<char>;

/// The bytes of an `http::HeaderValue`.
pub uninterp spec fn header_bytes(value: http::HeaderValue) -> Seq<u8>;

/// With fewer names than this a header map surely has room for one more. Whether a larger one has
/// depends on how its names happen to hash.
pub const SURE_NAMES: usize = 6554;

/// As many names as a header map ever holds.
pub const MOST_NAMES: usize = 24_576;

/// Whether `fields` has so many names.
pub open spec fn is_name_count(fields: Map<Seq<char>, Seq<Seq<u8>>>, n: nat) -> bool {
    fields.dom().finite() && fields.dom().len() == n
}

/// Whether so many more names surely fit beside those of `fields`.
pub open spec fn has_room(fields: Map<Seq<char>, Seq<Seq<u8>>>, more: nat) -> bool {
    fields.dom().finite() && fields.dom().len() + more <= SURE_NAMES
}

/// A byte of a header value that is plain text: visible ASCII, space or tab.
pub open spec fn is_visible(b: u8) -> bool {
    32 <= b < 127 || b == 9
}

/// Whether a header value is plain text.
pub open spec fn is_plain(bytes: Seq<u8>) -> bool {
    forall|i: int| 0 <= i < bytes.len() ==> is_visible(#[trigger] bytes[i])
}

/// Whether bytes can be a header value: no control characters but the tab.
pub open spec fn is_sendable(bytes: Seq<u8>) -> bool {
    forall|i: int|
        0 <= i < bytes.len() ==> (32 <= #[trigger] bytes[i] && bytes[i] != 127) || bytes[i] == 9
}

/// ASCII bytes as text.
pub open spec fn ascii_text(bytes: Seq<u8>) -> Seq<char> {
    bytes.map_values(|b: u8| b as char)
}

/// ASCII text as bytes.
pub open spec fn ascii_bytes(text: Seq<char>) -> Seq<u8> {
    text.map_values(|c: char| c as u8)
}

/// Whether a name is in the form that names have in a header map: up to 64 lower-case letters,
/// digits and hyphens.
pub open spec fn is_field_name(name: Seq<char>) -> bool {
    &&& 0 < name.len() <= 64
    &&& forall|i: int|
        0 <= i < name.len() ==> 'a' <= #[trigger] name[i] <= 'z' || '0' <= name[i] <= '9' || name[i]
            == '-'
}

/// `http::HeaderMap::get`: the first value of a field, if it is there.
#[verifier::external_body]
pub(crate) fn first_value<'a>(headers: &'a HeaderMap, name: &str) -> (r: Option<&'a HeaderValue>)
    requires
        is_field_name(name@),
    ensures
        match r {
            Some(v) => {
                &&& header_fields(*headers).contains_key(name@)
                &&& header_fields(*headers)[name@].len() > 0
                &&& header_bytes(*v) == header_fields(*headers)[name@][0]
            },
            None => !header_fields(*headers).contains_key(name@),
        },
{
    headers.get(name)
}

/// `http::HeaderMap::try_insert`: from then on the field has this one value, and the first value it
/// had before is given back. Where the map has no room it stays as it is; with fewer than
/// [`SURE_NAMES`] names it has.
#[verifier::external_body]
pub(crate) fn set_field(headers: &mut HeaderMap, name: &HeaderName, value: HeaderValue) -> (r: Result<
    Option<HeaderValue>,
    MaxSizeReached,
>)
    ensures
        match r {
            Ok(was) => {
                &&& header_fields(*final(headers)) == header_fields(*old(headers)).insert(
                    name_text(*name),
                    seq![header_bytes(value)],
                )
                &&& match was {
                    Some(v) => header_fields(*old(headers)).contains_key(name_text(*name))
                        && header_bytes(v) == header_fields(*old(headers))[name_text(*name)][0],
                    None => !header_fields(*old(headers)).contains_key(name_text(*name)),
                }
            },
            Err(_) => {
                &&& header_fields(*final(headers)) == header_fields(*old(headers))
                &&& !has_room(header_fields(*old(headers)), 1)
            },
        },
{
    headers.try_insert(name, value)
}

/// `http::HeaderMap::try_append`: the field gets this value behind those that it has, and whether it
/// had any is told. Where the map has no room it stays as it is; with fewer than [`SURE_NAMES`] names
/// it has.
#[verifier::external_body]
pub(crate) fn add_value(headers: &mut HeaderMap, name: &HeaderName, value: HeaderValue) -> (r: Result<
    bool,
    MaxSizeReached,
>)
    ensures
        match r {
            Ok(was) => {
                &&& was == header_fields(*old(headers)).contains_key(name_text(*name))
                &&& header_fields(*final(headers)) == header_fields(*old(headers)).insert(
                    name_text(*name),
                    if was {
                        header_fields(*old(headers))[name_text(*name)].push(header_bytes(value))
                    } else {
                        seq![header_bytes(value)]
                    },
                )
            },
            Err(_) => {
                &&& header_fields(*final(headers)) == header_fields(*old(headers))
                &&& !has_room(header_fields(*old(headers)), 1)
            },
        },
{
    headers.try_append(name, value)
}

/// `http::HeaderMap::new`: a header map without fields.
pub assume_specification[ http::HeaderMap::new ]() -> (r: http::HeaderMap)
    ensures
        header_fields(r).is_empty(),
;

/// `http::HeaderMap::keys_len`: how many names a header map holds.
#[verifier::external_body]
pub(crate) fn names_len(headers: &HeaderMap) -> (r: usize)
    ensures
        is_name_count(header_fields(*headers), r as nat),
{
    headers.keys_len()
}

/// `http::HeaderMap::try_reserve`: the fields stay what they are, and it succeeds unless the names
/// would become more than a header map ever holds. How much space is set aside is not stated.
#[verifier::external_body]
pub(crate) fn make_space(headers: &mut HeaderMap, names: usize) -> (r: Result<(), MaxSizeReached>)
    ensures
        header_fields(*final(headers)) == header_fields(*old(headers)),
        r is Err ==> header_fields(*old(headers)).dom().len() + names > MOST_NAMES,
{
    headers.try_reserve(names)
}

/// `http::HeaderMap::extend` with a header map of one field: the field takes the place of the one of
/// that name. It panics where the map has no room for a name, so `http::HeaderMap::try_entry` makes
/// the room first; that changes no field, and where it fails nothing else is done. With fewer than
/// [`SURE_NAMES`] names it succeeds.
#[verifier::external_body]
pub(crate) fn add_field(headers: &mut HeaderMap, name: &HeaderName, field: HeaderMap) -> (r: Result<
    (),
    InvalidHeaderName,
>)
    requires
        header_fields(field).dom() == set![name_text(*name)],
    ensures
        match r {
            Ok(_) => header_fields(*final(headers)) == header_fields(
                *old(headers),
            ).union_prefer_right(header_fields(field)),
            Err(_) => {
                &&& header_fields(*final(headers)) == header_fields(*old(headers))
                &&& !has_room(header_fields(*old(headers)), 1)
            },
        },
{
    headers.try_entry(name)?;
    headers.extend(field);
    Ok(())
}

/// One value of a field, with the field's name if it is the first of its values.
pub open spec fn item_view(item: (Option<HeaderName>, HeaderValue)) -> (Option<Seq<char>>, Seq<u8>) {
    match item.0 {
        Some(name) => (Some(name_text(name)), header_bytes(item.1)),
        None => (None, header_bytes(item.1)),
    }
}

/// The values of some fields, each with the field's name if it is the first of its values.
pub open spec fn items_view(items: Seq<(Option<HeaderName>, HeaderValue)>) -> Seq<
    (Option<Seq<char>>, Seq<u8>),
> {
    items.map_values(|item: (Option<HeaderName>, HeaderValue)| item_view(item))
}

/// The name of the field that the last of some values belongs to.
pub open spec fn last_name(items: Seq<(Option<Seq<char>>, Seq<u8>)>) -> Option<Seq<char>>
    decreases items.len(),
{
    if items.len() == 0 {
        None
    } else {
        match items.last().0 {
            Some(name) => Some(name),
            None => last_name(items.drop_last()),
        }
    }
}

/// The fields that some values make up. A value without a name belongs to the name before it.
pub open spec fn fields_of(items: Seq<(Option<Seq<char>>, Seq<u8>)>) -> Map<
    Seq<char>,
    Seq<Seq<u8>>,
>
    decreases items.len(),
{
    if items.len() == 0 {
        Map::empty()
    } else {
        let fields = fields_of(items.drop_last());
        let (name, value) = items.last();
        match (name, last_name(items)) {
            (Some(name), _) => fields.insert(name, seq![value]),
            (None, Some(name)) => fields.insert(name, fields[name].push(value)),
            (None, None) => fields,
        }
    }
}

/// `http::HeaderMap::into_iter`: the values of all fields, those of a field one after the other and
/// the first of them with the field's name. In what order the fields come is not stated.
#[verifier::external_body]
pub(crate) fn into_items(headers: HeaderMap) -> (r: Vec<(Option<HeaderName>, HeaderValue)>)
    ensures
        fields_of(items_view(r@)) == header_fields(headers),
{
    headers.into_iter().collect()
}

/// `http::HeaderName::from_static`: a text as a field's name. It panics on a text that is none.
pub assume_specification[ http::HeaderName::from_static ](src: &'static str) -> (r: http::HeaderName)
    requires
        is_field_name(src@),
    ensures
        name_text(r) == src@,
;

/// `http::HeaderValue::to_str`: the text of a value that is plain text.
pub assume_specification[ http::HeaderValue::to_str ](v: &http::HeaderValue) -> (r: Result<
    &str,
    http::header::ToStrError,
>)
    ensures
        match r {
            Ok(s) => is_plain(header_bytes(*v)) && s@ == ascii_text(header_bytes(*v)),
            Err(_) => !is_plain(header_bytes(*v)),
        },
;

/// `http::HeaderValue::from_str`: a text as a value, if its bytes can be one.
pub assume_specification[ http::HeaderValue::from_str ](src: &str) -> (r: Result<
    http::HeaderValue,
    http::header::InvalidHeaderValue,
>)
    ensures
        match r {
            Ok(v) => is_sendable(src.spec_bytes()) && header_bytes(v) == src.spec_bytes(),
            Err(_) => !is_sendable(src.spec_bytes()),
        },
;

/// `http::HeaderValue::from_static`: a plain text as a value. It panics on any other text.
pub assume_specification[ http::HeaderValue::from_static ](src: &'static str) -> (r: http::HeaderValue)
    requires
        forall|i: int| 0 <= i < src@.len() ==> ' ' <= #[trigger] src@[i] <= '~',
    ensures
        header_bytes(r) == ascii_bytes(src@),
;

/// Whether the fields of two header maps surely fit into one, with one more beside them.
pub open spec fn fit_together(
    a: Map<Seq<char>, Seq<Seq<u8>>>,
    b: Map<Seq<char>, Seq<Seq<u8>>>,
) -> bool {
    has_room(a, b.dom().len() + 1) && b.dom().finite()
}

/// The name that a value belongs to is that of one of the fields, and fewer values make up no other
/// fields.
proof fn lemma_fields_of_some(items: Seq<(Option<Seq<char>>, Seq<u8>)>, n: int)
    requires
        0 <= n <= items.len(),
    ensures
        fields_of(items.take(n)).dom().subset_of(fields_of(items).dom()),
        last_name(items) matches Some(name) ==> fields_of(items).contains_key(name),
    decreases items.len(),
{
    if items.len() > 0 {
        let before = items.drop_last();
        if n < items.len() {
            lemma_fields_of_some(before, n);
            assert(before.take(n) == items.take(n));
        } else {
            lemma_fields_of_some(before, n - 1);
            assert(items.take(n) == items);
        }
    }
}

/// Where two header maps surely fit together, so does what has been merged of them so far.
proof fn lemma_fit_so_far(
    a: Map<Seq<char>, Seq<Seq<u8>>>,
    items: Seq<(Option<Seq<char>>, Seq<u8>)>,
    n: int,
)
    requires
        0 <= n <= items.len(),
        fit_together(a, fields_of(items)),
    ensures
        has_room(a.union_prefer_right(fields_of(items.take(n))), 1),
{
    lemma_fields_of_some(items, n);
    let part = fields_of(items.take(n)).dom();
    let whole = fields_of(items).dom();
    vstd::set_lib::lemma_len_subset(part, whole);
    vstd::set_lib::lemma_len_union(a.dom(), part);
    assert(a.union_prefer_right(fields_of(items.take(n))).dom() == a.dom().union(part));
}

/// Where two header maps surely fit together, there is room for one more name beside what has been
/// merged of them so far but for the last field.
proof fn lemma_room_for_pending(
    a: Map<Seq<char>, Seq<Seq<u8>>>,
    items: Seq<(Option<Seq<char>>, Seq<u8>)>,
    n: int,
    all: Map<Seq<char>, Seq<Seq<u8>>>,
    pending: Map<Seq<char>, Seq<Seq<u8>>>,
)
    requires
        0 <= n <= items.len(),
        all.union_prefer_right(pending) == a.union_prefer_right(fields_of(items.take(n))),
    ensures
        fit_together(a, fields_of(items)) ==> has_room(all, 1),
{
    if fit_together(a, fields_of(items)) {
        lemma_fit_so_far(a, items, n);
        let sofar = all.union_prefer_right(pending);
        assert(all.dom().subset_of(sofar.dom()));
        vstd::set_lib::lemma_len_subset(all.dom(), sofar.dom());
    }
}

/// The fields of a pending field, if there is one.
spec fn pending_fields(pending: Option<(HeaderName, HeaderMap)>) -> Map<Seq<char>, Seq<Seq<u8>>> {
    match pending {
        Some((_, field)) => header_fields(field),
        None => Map::empty(),
    }
}

/// Adds a pending field, if there is one. Says whether it did: a header map that has no room for the
/// field stays as it is.
fn add_pending(headers: &mut HeaderMap, pending: Option<(HeaderName, HeaderMap)>) -> (r: bool)
    requires
        pending matches Some((name, field)) ==> header_fields(field).dom() == set![name_text(name)],
    ensures
        header_fields(*final(headers)) == (if r {
            header_fields(*old(headers)).union_prefer_right(pending_fields(pending))
        } else {
            header_fields(*old(headers))
        }),
        has_room(header_fields(*old(headers)), 1) ==> r,
{
    match pending {
        Some((name, field)) => add_field(headers, &name, field).is_ok(),
        None => {
            assert(header_fields(*headers).union_prefer_right(Map::empty()) == header_fields(
                *headers,
            ));
            true
        },
    }
}

/// The fields of two header maps in one. Those of the second take the place of those of the same
/// name. `None` where one map has no room for them all, which may be so only of a great many.
pub fn merged(headers: HeaderMap, other: HeaderMap) -> (r: Option<HeaderMap>)
    ensures
        match r {
            Some(all) => header_fields(all) == header_fields(headers).union_prefer_right(
                header_fields(other),
            ),
            None => !fit_together(header_fields(headers), header_fields(other)),
        },
{
    let ghost own = header_fields(headers);
    let ghost others = header_fields(other);
    let mut all = headers;
    // As much space as `HeaderMap::extend` sets aside for all fields at once: how names spread over
    // the space decides how many fit.
    let held: usize = names_len(&all);
    let coming: usize = names_len(&other);
    let hint: usize = if held == 0 {
        coming
    } else {
        coming / 2 + coming % 2
    };
    let left: usize = if held < MOST_NAMES {
        MOST_NAMES - held
    } else {
        0
    };
    if make_space(
        &mut all,
        if hint < left {
            hint
        } else {
            left
        },
    ).is_err() {
        return None;
    }
    let items = into_items(other);
    let ghost views = items_view(items@);
    let mut pending: Option<(HeaderName, HeaderMap)> = None;
    proof {
        assert(views.take(0) == Seq::<(Option<Seq<char>>, Seq<u8>)>::empty());
        assert(own.union_prefer_right(fields_of(views.take(0))) == own.union_prefer_right(
            pending_fields(pending),
        ));
    }
    for item in it: items
        invariant
            it.seq() == items@,
            views == items_view(items@),
            fields_of(views) == others,
            header_fields(all).union_prefer_right(pending_fields(pending))
                == own.union_prefer_right(fields_of(views.take(it.index()))),
            pending matches Some((name, field)) ==> {
                &&& header_fields(field).dom() == set![name_text(name)]
                &&& last_name(views.take(it.index())) == Some(name_text(name))
            },
            pending is None ==> last_name(views.take(it.index())) is None,
            own == header_fields(headers),
            others == header_fields(other),
    {
        let ghost n = it.index();
        let ghost before = views.take(n);
        let ghost after = views.take(n + 1);
        let ghost sofar = header_fields(all).union_prefer_right(pending_fields(pending));
        proof {
            assert(after.drop_last() == before);
            assert(after.last() == item_view(item));
            lemma_fields_of_some(before, 0);
            lemma_room_for_pending(own, views, n, header_fields(all), pending_fields(pending));
        }
        let (name, value) = item;
        match name {
            Some(name) => {
                if !add_pending(&mut all, pending) {
                    return None;
                }
                let mut field = HeaderMap::new();
                proof {
                    assert(header_fields(field) == Map::<Seq<char>, Seq<Seq<u8>>>::empty());
                    assert(has_room(header_fields(field), 1));
                    assert(header_fields(all) == sofar);
                }
                let _ = set_field(&mut field, &name, value);
                pending = Some((name, field));
            },
            None => match pending {
                Some((name, mut field)) => {
                    proof {
                        assert(has_room(header_fields(field), 1));
                        assert(sofar[name_text(name)] == header_fields(field)[name_text(name)]);
                    }
                    let _ = add_value(&mut field, &name, value);
                    pending = Some((name, field));
                    proof {
                        let key = name_text(name);
                        let values = fields_of(before)[key].push(header_bytes(value));
                        assert(header_fields(all).union_prefer_right(pending_fields(pending))
                            == sofar.insert(key, values));
                        assert(own.union_prefer_right(fields_of(after))
                            == own.union_prefer_right(fields_of(before)).insert(key, values));
                    }
                },
                None => {
                    pending = None;
                },
            },
        }
    }
    proof {
        assert(views.take(views.len() as int) == views);
        lemma_room_for_pending(
            own,
            views,
            views.len() as int,
            header_fields(all),
            pending_fields(pending),
        );
    }
    if add_pending(&mut all, pending) {
        Some(all)
    } else {
        None
    }
}

/// The text of a field: that of its first value, if it has one that is plain text.
pub open spec fn field_text(fields: Map<Seq<char>, Seq<Seq<u8>>>, name: Seq<char>) -> Option<
    Seq<char>,
> {
    if fields.contains_key(name) && is_plain(fields[name][0]) {
        Some(ascii_text(fields[name][0]))
    } else {
        None
    }
}

/// The text of a field.
pub fn header_text(headers: &HeaderMap, name: &str) -> (r: Option<String>)
    requires
        is_field_name(name@),
    ensures
        crate::protocol::optional_text(r) == field_text(header_fields(*headers), name@),
{
    match first_value(headers, name) {
        Some(value) => match value.to_str() {
            Ok(text) => Some(text.to_owned()),
            Err(_) => None,
        },
        None => None,
    }
}

/// The entity tag of an answer, if it has one that is plain text.
pub fn etag(headers: &HeaderMap) -> (r: Option<String>)
    ensures
        crate::protocol::optional_text(r) == field_text(header_fields(*headers), "etag"@),
{
    proof {
        reveal_strlit("etag");
    }
    header_text(headers, "etag")
}

/// The state of the turn that an answer hands back, if it has one that is plain text.
pub fn turn_state(headers: &HeaderMap) -> (r: Option<String>)
    ensures
        crate::protocol::optional_text(r) == field_text(
            header_fields(*headers),
            "x-codex-turn-state"@,
        ),
{
    proof {
        reveal_strlit("x-codex-turn-state");
    }
    header_text(headers, "x-codex-turn-state")
}

} // verus!
