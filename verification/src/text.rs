//! Text as sequences of characters: white space, first occurrences, joining.
use vstd::prelude::*;
use vstd::string::*;

verus! {

/// The characters that carry the Unicode property `White_Space`.
pub open spec fn is_white_space_spec(c: char) -> bool {
    let u = c as u32;
    ||| 0x09 <= u <= 0x0d
    ||| u == 0x20
    ||| u == 0x85
    ||| u == 0xa0
    ||| u == 0x1680
    ||| 0x2000 <= u <= 0x200a
    ||| u == 0x2028
    ||| u == 0x2029
    ||| u == 0x202f
    ||| u == 0x205f
    ||| u == 0x3000
}

/// Whether `c` is white space.
pub fn is_white_space(c: char) -> (r: bool)
    ensures
        r == is_white_space_spec(c),
{
    let u: u32 = c as u32;
    (0x09 <= u && u <= 0x0d) || u == 0x20 || u == 0x85 || u == 0xa0 || u == 0x1680 || (0x2000 <= u
        && u <= 0x200a) || u == 0x2028 || u == 0x2029 || u == 0x202f || u == 0x205f || u == 0x3000
}

/// `s` without the white space at its two ends.
pub open spec fn trimmed(s: Seq<char>) -> Seq<char>
    decreases s.len(),
{
    if s.len() > 0 && is_white_space_spec(s.first()) {
        trimmed(s.drop_first())
    } else if s.len() > 0 && is_white_space_spec(s.last()) {
        trimmed(s.drop_last())
    } else {
        s
    }
}

/// What is trimmed neither begins nor ends with white space, and trimming it again changes nothing.
pub proof fn trimmed_text_has_no_space_around_it(s: Seq<char>)
    ensures
        ({
            let t = trimmed(s);
            &&& t.len() > 0 ==> !is_white_space_spec(t.first()) && !is_white_space_spec(t.last())
            &&& trimmed(t) == t
        }),
    decreases s.len(),
{
    if s.len() > 0 && is_white_space_spec(s.first()) {
        trimmed_text_has_no_space_around_it(s.drop_first());
    } else if s.len() > 0 && is_white_space_spec(s.last()) {
        trimmed_text_has_no_space_around_it(s.drop_last());
    }
}

/// However much white space stands around a text that neither begins nor ends with any, trimming
/// takes off all of it and nothing else.
pub proof fn all_space_around_a_text_is_trimmed(a: Seq<char>, t: Seq<char>, b: Seq<char>)
    requires
        forall|i: int| 0 <= i < a.len() ==> is_white_space_spec(#[trigger] a[i]),
        forall|i: int| 0 <= i < b.len() ==> is_white_space_spec(#[trigger] b[i]),
        t.len() > 0 ==> !is_white_space_spec(t.first()) && !is_white_space_spec(t.last()),
    ensures
        trimmed(a + t + b) == t,
    decreases a.len() + b.len(),
{
    let s = a + t + b;
    if a.len() > 0 {
        assert(s.first() == a[0]);
        assert(s.drop_first() == a.drop_first() + t + b);
        all_space_around_a_text_is_trimmed(a.drop_first(), t, b);
    } else if b.len() > 0 {
        if t.len() == 0 {
            assert(s.first() == b[0]);
            assert(s.drop_first() == a + t + b.drop_first());
            all_space_around_a_text_is_trimmed(a, t, b.drop_first());
        } else {
            assert(s.first() == t.first());
            assert(s.last() == b.last());
            assert(b[b.len() - 1] == b.last());
            assert(s.drop_last() == a + t + b.drop_last());
            all_space_around_a_text_is_trimmed(a, t, b.drop_last());
        }
    } else {
        assert(s == t);
    }
}

/// What trimming leaves is a stretch of the text, and all before and behind it is white space.
pub proof fn only_space_is_trimmed(s: Seq<char>) -> (from: int)
    ensures
        0 <= from <= from + trimmed(s).len() <= s.len(),
        trimmed(s) == s.subrange(from, from + trimmed(s).len()),
        forall|i: int|
            0 <= i < s.len() && !(from <= i < from + trimmed(s).len()) ==> is_white_space_spec(
                #[trigger] s[i],
            ),
    decreases s.len(),
{
    if s.len() > 0 && is_white_space_spec(s.first()) {
        let from = only_space_is_trimmed(s.drop_first());
        assert forall|i: int| 0 <= i < s.len() && !(from + 1 <= i < from + 1 + trimmed(
            s,
        ).len()) implies is_white_space_spec(#[trigger] s[i]) by {
            if i > 0 {
                assert(s[i] == s.drop_first()[i - 1]);
            }
        }
        from + 1
    } else if s.len() > 0 && is_white_space_spec(s.last()) {
        let from = only_space_is_trimmed(s.drop_last());
        assert forall|i: int| 0 <= i < s.len() && !(from <= i < from + trimmed(
            s,
        ).len()) implies is_white_space_spec(#[trigger] s[i]) by {
            if i < s.len() - 1 {
                assert(s[i] == s.drop_last()[i]);
            }
        }
        from
    } else {
        assert(s.subrange(0, s.len() as int) == s);
        0
    }
}

/// The characters of `s`, one by one.
pub fn chars_of(s: &str) -> (r: Vec<char>)
    ensures
        r@ == s@,
{
    let mut r: Vec<char> = Vec::new();
    for c in it: s.chars()
        invariant
            r@ == it.seq().take(it.index()),
            it.seq() == s@,
    {
        r.push(c);
    }
    r
}

/// `s` without leading and trailing white space.
pub fn trim(s: &str) -> (r: String)
    ensures
        r@ == trimmed(s@),
{
    let chars: Vec<char> = chars_of(s);
    let mut from: usize = 0;
    let mut to: usize = chars.len();
    proof {
        assert(s@.subrange(0, to as int) == s@);
    }
    while from < to && is_white_space(chars[from])
        invariant
            from <= to == chars.len(),
            chars@ == s@,
            trimmed(s@) == trimmed(s@.subrange(from as int, to as int)),
        decreases to - from,
    {
        proof {
            assert(s@.subrange(from as int, to as int).drop_first() == s@.subrange(
                from + 1,
                to as int,
            ));
        }
        from = from + 1;
    }
    while from < to && is_white_space(chars[to - 1])
        invariant
            from <= to <= chars.len(),
            chars@ == s@,
            from < to ==> !is_white_space_spec(s@[from as int]),
            trimmed(s@) == trimmed(s@.subrange(from as int, to as int)),
        decreases to - from,
    {
        proof {
            assert(s@.subrange(from as int, to as int).drop_last() == s@.subrange(
                from as int,
                to - 1,
            ));
        }
        to = to - 1;
    }
    s.substring_char(from, to).to_owned()
}

/// Whether `pat` stands in `s` at position `i`.
pub open spec fn occurs_at(s: Seq<char>, pat: Seq<char>, i: int) -> bool {
    &&& 0 <= i
    &&& i + pat.len() <= s.len()
    &&& s.subrange(i, i + pat.len()) == pat
}

/// Whether `pat` stands in `s` somewhere.
pub open spec fn occurs(s: Seq<char>, pat: Seq<char>) -> bool {
    exists|i: int| occurs_at(s, pat, i)
}

/// Whether `i` is the leftmost position of `pat` in `s`.
pub open spec fn is_first_occurrence(s: Seq<char>, pat: Seq<char>, i: int) -> bool {
    &&& occurs_at(s, pat, i)
    &&& forall|j: int| 0 <= j < i ==> !occurs_at(s, pat, j)
}

/// The leftmost position of `pat` in `s`, if there is one.
pub open spec fn first_occurrence(s: Seq<char>, pat: Seq<char>) -> Option<int> {
    if exists|i: int| is_first_occurrence(s, pat, i) {
        Some(choose|i: int| is_first_occurrence(s, pat, i))
    } else {
        None
    }
}

/// A position that is leftmost is the one that `first_occurrence` gives.
pub proof fn lemma_first_occurrence_at(s: Seq<char>, pat: Seq<char>, i: int)
    requires
        is_first_occurrence(s, pat, i),
    ensures
        first_occurrence(s, pat) == Some(i),
{
    let k = choose|k: int| is_first_occurrence(s, pat, k);
    assert(is_first_occurrence(s, pat, k));
    assert(k == i);
}

/// `first_occurrence` gives a position exactly where there is one, and it is the leftmost.
pub proof fn lemma_first_occurrence(s: Seq<char>, pat: Seq<char>)
    ensures
        first_occurrence(s, pat) is Some <==> occurs(s, pat),
        first_occurrence(s, pat) matches Some(i) ==> is_first_occurrence(s, pat, i),
{
    if occurs(s, pat) {
        let i = choose|i: int| occurs_at(s, pat, i);
        lemma_least_occurrence(s, pat, i);
    }
}

/// What follows a text does not move the first occurrence inside it.
pub proof fn lemma_first_occurrence_before(a: Seq<char>, b: Seq<char>, pat: Seq<char>)
    requires
        first_occurrence(a, pat) is Some,
    ensures
        first_occurrence(a + b, pat) == first_occurrence(a, pat),
{
    lemma_first_occurrence(a, pat);
    let i = first_occurrence(a, pat)->0;
    assert((a + b).subrange(i, i + pat.len()) == a.subrange(i, i + pat.len()));
    assert forall|j: int| 0 <= j < i implies !occurs_at(a + b, pat, j) by {
        assert((a + b).subrange(j, j + pat.len()) == a.subrange(j, j + pat.len()));
        assert(!occurs_at(a, pat, j));
    }
    lemma_first_occurrence_at(a + b, pat, i);
}

/// Where neither a text nor its border holds an occurrence, the first one is in what follows.
pub proof fn lemma_first_occurrence_behind(a: Seq<char>, b: Seq<char>, pat: Seq<char>)
    requires
        first_occurrence(a, pat) is None,
        forall|j: int|
            #[trigger] occurs_at(a + b, pat, j) ==> !(j < a.len() < j + pat.len()),
    ensures
        first_occurrence(a + b, pat) == (match first_occurrence(b, pat) {
            Some(i) => Some(a.len() + i),
            None => None,
        }),
{
    lemma_first_occurrence(a, pat);
    lemma_first_occurrence(b, pat);
    lemma_first_occurrence(a + b, pat);
    let n = a.len() as int;
    assert forall|j: int| 0 <= j < n implies !occurs_at(a + b, pat, j) by {
        if occurs_at(a + b, pat, j) {
            assert(a.subrange(j, j + pat.len()) == (a + b).subrange(j, j + pat.len()));
            assert(occurs_at(a, pat, j));
        }
    }
    assert forall|j: int| j >= n implies occurs_at(a + b, pat, j) == occurs_at(b, pat, j - n) by {
        if j + pat.len() <= (a + b).len() {
            assert(b.subrange(j - n, j - n + pat.len()) == (a + b).subrange(j, j + pat.len()));
        }
    }
    if let Some(i) = first_occurrence(b, pat) {
        assert(occurs_at(a + b, pat, n + i));
        assert forall|j: int| 0 <= j < n + i implies !occurs_at(a + b, pat, j) by {
            if j >= n {
                assert(!occurs_at(b, pat, j - n));
            }
        }
        lemma_first_occurrence_at(a + b, pat, n + i);
    } else {
        assert forall|j: int| !occurs_at(a + b, pat, j) by {
            if j >= n {
                assert(!occurs_at(b, pat, j - n));
            }
        }
    }
}

/// Below any occurrence there is a leftmost one.
proof fn lemma_least_occurrence(s: Seq<char>, pat: Seq<char>, i: int)
    requires
        occurs_at(s, pat, i),
    ensures
        exists|k: int| is_first_occurrence(s, pat, k),
    decreases i,
{
    if exists|j: int| 0 <= j < i && occurs_at(s, pat, j) {
        let j = choose|j: int| 0 <= j < i && occurs_at(s, pat, j);
        lemma_least_occurrence(s, pat, j);
    } else {
        assert(is_first_occurrence(s, pat, i));
    }
}

/// Whether `pat` stands in `s` at position `i`.
fn stands_at(s: &Vec<char>, pat: &Vec<char>, i: usize) -> (r: bool)
    requires
        i + pat.len() <= s.len(),
    ensures
        r == occurs_at(s@, pat@, i as int),
{
    let mut k: usize = 0;
    while k < pat.len()
        invariant
            k <= pat.len(),
            i + pat.len() <= s.len(),
            forall|j: int| 0 <= j < k ==> s[i + j] == pat[j],
        decreases pat.len() - k,
    {
        if s[i + k] != pat[k] {
            proof {
                assert(s@.subrange(i as int, i + pat.len())[k as int] != pat@[k as int]);
            }
            return false;
        }
        k = k + 1;
    }
    proof {
        assert(s@.subrange(i as int, i + pat.len()) == pat@);
    }
    true
}

/// The leftmost position of `pat` in what `s` holds from position `from` on, counted from `from`.
pub fn find_from(s: &Vec<char>, from: usize, pat: &Vec<char>) -> (r: Option<usize>)
    requires
        from <= s.len(),
    ensures
        match r {
            Some(i) => {
                &&& first_occurrence(s@.skip(from as int), pat@) == Some(i as int)
                &&& from + i + pat.len() <= s.len()
            },
            None => first_occurrence(s@.skip(from as int), pat@) is None,
        },
{
    let ghost rest = s@.skip(from as int);
    if pat.len() > s.len() - from {
        proof {
            lemma_first_occurrence(rest, pat@);
        }
        return None;
    }
    let last: usize = s.len() - from - pat.len();
    let mut i: usize = 0;
    loop
        invariant
            from <= s.len(),
            i <= last,
            last + from + pat.len() == s.len(),
            rest == s@.skip(from as int),
            forall|j: int| 0 <= j < i ==> !occurs_at(rest, pat@, j),
        ensures
            forall|j: int| 0 <= j <= last ==> !occurs_at(rest, pat@, j),
        decreases last - i,
    {
        proof {
            assert(rest.subrange(i as int, i + pat.len()) == s@.subrange(
                from + i,
                from + i + pat.len(),
            ));
        }
        if stands_at(s, pat, from + i) {
            proof {
                assert(occurs_at(rest, pat@, i as int));
                lemma_first_occurrence_at(rest, pat@, i as int);
            }
            return Some(i);
        }
        if i == last {
            break;
        }
        i = i + 1;
    }
    proof {
        lemma_first_occurrence(rest, pat@);
    }
    None
}

/// Whether two texts are the same.
pub fn same_text(a: &str, b: &str) -> (r: bool)
    ensures
        r == (a@ == b@),
{
    a.to_owned() == b.to_owned()
}

/// Whether the character `c` stands in `s`.
pub fn contains_char(s: &str, c: char) -> (r: bool)
    ensures
        r == s@.contains(c),
{
    let chars: Vec<char> = chars_of(s);
    let mut i: usize = 0;
    while i < chars.len()
        invariant
            i <= chars.len(),
            chars@ == s@,
            forall|j: int| 0 <= j < i ==> s@[j] != c,
        decreases chars.len() - i,
    {
        if chars[i] == c {
            return true;
        }
        i = i + 1;
    }
    false
}

/// All of `parts` in order, one after the other.
pub open spec fn concat(parts: Seq<Seq<char>>) -> Seq<char>
    decreases parts.len(),
{
    if parts.len() == 0 {
        Seq::empty()
    } else {
        concat(parts.drop_last()) + parts.last()
    }
}

/// Concatenation spreads over two halves of a list.
pub proof fn lemma_concat_append(a: Seq<Seq<char>>, b: Seq<Seq<char>>)
    ensures
        concat(a + b) == concat(a) + concat(b),
    decreases b.len(),
{
    if b.len() == 0 {
        assert(a + b == a);
    } else {
        assert((a + b).drop_last() == a + b.drop_last());
        lemma_concat_append(a, b.drop_last());
    }
}

/// All of `parts` in order, with a line feed between each two.
pub open spec fn lines(parts: Seq<Seq<char>>) -> Seq<char>
    decreases parts.len(),
{
    if parts.len() == 0 {
        Seq::empty()
    } else if parts.len() == 1 {
        parts[0]
    } else {
        lines(parts.drop_last()).push('\n') + parts.last()
    }
}

} // verus!
