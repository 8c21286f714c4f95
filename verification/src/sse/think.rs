//! Telling thoughts from text: a model may wrap its thoughts in `<think>` and `</think>`.
use vstd::prelude::*;
use vstd::string::*;

use crate::text;

verus! {

/// The tag that opens a thought.
pub open spec fn open_tag() -> Seq<char> {
    seq!['<', 't', 'h', 'i', 'n', 'k', '>']
}

/// The tag that closes a thought.
pub open spec fn close_tag() -> Seq<char> {
    seq!['<', '/', 't', 'h', 'i', 'n', 'k', '>']
}

/// The tag that ends what is being read: inside a thought the closing one, outside the opening one.
pub open spec fn ending_tag(thinking: bool) -> Seq<char> {
    if thinking {
        close_tag()
    } else {
        open_tag()
    }
}

/// A stretch of a message between two tags: a thought or text.
pub struct Piece {
    pub thought: bool,
    pub chars: Seq<char>,
}

/// The pieces of `s`, read from inside a thought if `thinking` and from outside one if not. Each
/// piece runs up to the first tag that ends it; the last one runs to the end of `s`.
pub open spec fn pieces(s: Seq<char>, thinking: bool) -> Seq<Piece>
    decreases s.len(),
{
    match text::first_occurrence(s, ending_tag(thinking)) {
        Some(i) => seq![Piece { thought: thinking, chars: s.take(i) }] + pieces(
            s.skip(i + ending_tag(thinking).len()),
            !thinking,
        ),
        None => seq![Piece { thought: thinking, chars: s }],
    }
}

/// The text in a list of pieces.
pub open spec fn text_of(ps: Seq<Piece>) -> Seq<char>
    decreases ps.len(),
{
    if ps.len() == 0 {
        Seq::empty()
    } else if ps.last().thought {
        text_of(ps.drop_last())
    } else {
        text_of(ps.drop_last()) + ps.last().chars
    }
}

/// The thoughts in a list of pieces that are not empty, in order.
pub open spec fn thoughts_of(ps: Seq<Piece>) -> Seq<Seq<char>>
    decreases ps.len(),
{
    if ps.len() == 0 {
        Seq::empty()
    } else if ps.last().thought && ps.last().chars.len() > 0 {
        thoughts_of(ps.drop_last()).push(ps.last().chars)
    } else {
        thoughts_of(ps.drop_last())
    }
}

/// Whether the reader stands inside a thought after reading `s`.
pub open spec fn thinking_after(s: Seq<char>, thinking: bool) -> bool {
    pieces(s, thinking).last().thought
}

/// What [`split_thoughts`] found in one stretch of content.
pub struct SplitContent {
    /// The text outside thoughts.
    pub text: String,
    /// The thoughts that are not empty, in order.
    pub thoughts: Vec<String>,
    /// Whether the content ended inside a thought.
    pub thinking: bool,
}

/// The characters of each text in a list.
pub open spec fn texts_view(texts: Seq<String>) -> Seq<Seq<char>> {
    texts.map_values(|t: String| t@)
}

/// Parts `content` into text and thoughts, starting inside a thought if `thinking`.
pub fn split_thoughts(content: &str, thinking: bool) -> (r: SplitContent)
    ensures
        r.text@ == text_of(pieces(content@, thinking)),
        texts_view(r.thoughts@) == thoughts_of(pieces(content@, thinking)),
        r.thinking == thinking_after(content@, thinking),
{
    let open: Vec<char> = vec!['<', 't', 'h', 'i', 'n', 'k', '>'];
    let close: Vec<char> = vec!['<', '/', 't', 'h', 'i', 'n', 'k', '>'];
    assert(open@ == open_tag());
    assert(close@ == close_tag());
    let chars: Vec<char> = text::chars_of(content);
    let mut text: String = String::new();
    let mut thoughts: Vec<String> = Vec::new();
    let mut inside: bool = thinking;
    let mut from: usize = 0;
    let ghost all = pieces(content@, thinking);
    let ghost mut done: Seq<Piece> = Seq::empty();
    proof {
        assert(content@.skip(0) == content@);
        assert(done + all == all);
    }
    while from < chars.len()
        invariant
            from <= chars.len(),
            chars@ == content@,
            open@ == open_tag(),
            close@ == close_tag(),
            all == pieces(content@, thinking),
            all == done + pieces(content@.skip(from as int), inside),
            text@ == text_of(done),
            texts_view(thoughts@) == thoughts_of(done),
        decreases chars.len() - from,
    {
        let ghost rest = content@.skip(from as int);
        let tag: &Vec<char> = if inside {
            &close
        } else {
            &open
        };
        let end: Option<usize> = text::find_from(&chars, from, tag);
        let to: usize = match end {
            Some(i) => from + i,
            None => chars.len(),
        };
        let piece: &str = content.substring_char(from, to);
        let ghost next = Piece { thought: inside, chars: piece@ };
        proof {
            assert(piece@ == (match end {
                Some(i) => rest.take(i as int),
                None => rest,
            }));
            assert(done.push(next).drop_last() == done);
        }
        if inside {
            if !piece.is_empty() {
                let ghost before = thoughts@;
                thoughts.push(piece.to_owned());
                assert(texts_view(thoughts@) == texts_view(before).push(piece@));
            }
        } else {
            text.append(piece);
        }
        match end {
            Some(i) => {
                proof {
                    assert(rest.skip(i + tag.len()) == content@.skip(from + i + tag.len()));
                    assert(done + (seq![next] + pieces(rest.skip(i + tag.len()), !inside))
                        == done.push(next) + pieces(rest.skip(i + tag.len()), !inside));
                    done = done.push(next);
                }
                from = from + i + tag.len();
                inside = !inside;
            },
            None => {
                proof {
                    assert(all == done.push(next));
                }
                return SplitContent { text, thoughts, thinking: inside };
            },
        }
    }
    proof {
        let empty = content@.skip(from as int);
        assert(empty.len() == 0);
        text::lemma_first_occurrence(empty, ending_tag(inside));
        let last = Piece { thought: inside, chars: empty };
        assert(all == done.push(last));
        assert(done.push(last).drop_last() == done);
        assert(text_of(done) + empty == text_of(done));
    }
    SplitContent { text, thoughts, thinking: inside }
}

/// Text spreads over two lists of pieces.
proof fn lemma_text_append(a: Seq<Piece>, b: Seq<Piece>)
    ensures
        text_of(a + b) == text_of(a) + text_of(b),
    decreases b.len(),
{
    if b.len() == 0 {
        assert(a + b == a);
    } else {
        assert((a + b).drop_last() == a + b.drop_last());
        lemma_text_append(a, b.drop_last());
    }
}

/// Thoughts spread over two lists of pieces.
proof fn lemma_thoughts_append(a: Seq<Piece>, b: Seq<Piece>)
    ensures
        thoughts_of(a + b) == thoughts_of(a) + thoughts_of(b),
    decreases b.len(),
{
    if b.len() == 0 {
        assert(a + b == a);
    } else {
        assert((a + b).drop_last() == a + b.drop_last());
        lemma_thoughts_append(a, b.drop_last());
    }
}

/// What a list of one piece gives, up to empty thoughts.
proof fn lemma_one_piece(p: Piece)
    ensures
        text_of(seq![p]) == (if p.thought {
            Seq::empty()
        } else {
            p.chars
        }),
        text::concat(thoughts_of(seq![p])) == (if p.thought {
            p.chars
        } else {
            Seq::empty()
        }),
{
    assert(seq![p].drop_last() == Seq::<Piece>::empty());
    assert(Seq::<Seq<char>>::empty().push(p.chars).drop_last() == Seq::<Seq<char>>::empty());
    reveal_with_fuel(text_of, 2);
    reveal_with_fuel(thoughts_of, 2);
    reveal_with_fuel(text::concat, 2);
}

/// The pieces in order, with the tag that ended each one put back behind it.
pub open spec fn rejoined(ps: Seq<Piece>) -> Seq<char>
    decreases ps.len(),
{
    if ps.len() == 0 {
        Seq::empty()
    } else if ps.len() == 1 {
        ps[0].chars
    } else {
        ps[0].chars + ending_tag(ps[0].thought) + rejoined(ps.drop_first())
    }
}

/// Nothing is lost in the parting: with the tags put back, the pieces give the content again.
pub proof fn pieces_rejoin(s: Seq<char>, thinking: bool)
    ensures
        pieces(s, thinking).len() >= 1,
        rejoined(pieces(s, thinking)) == s,
    decreases s.len(),
{
    let tag = ending_tag(thinking);
    text::lemma_first_occurrence(s, tag);
    if let Some(i) = text::first_occurrence(s, tag) {
        let rest = s.skip(i + tag.len());
        pieces_rejoin(rest, !thinking);
        assert(pieces(s, thinking).drop_first() == pieces(rest, !thinking));
        assert(s.take(i) + s.subrange(i, i + tag.len()) + rest == s);
    }
}

/// Pieces take turns: the first is what the reader stood in, and each next one is of the other sort.
pub proof fn pieces_alternate(s: Seq<char>, thinking: bool, k: int)
    requires
        0 <= k < pieces(s, thinking).len(),
    ensures
        pieces(s, thinking)[k].thought == (thinking == (k % 2 == 0)),
    decreases s.len(),
{
    let tag = ending_tag(thinking);
    if let Some(i) = text::first_occurrence(s, tag) {
        if k > 0 {
            let rest = s.skip(i + tag.len());
            assert(pieces(s, thinking)[k] == pieces(rest, !thinking)[k - 1]);
            pieces_alternate(rest, !thinking, k - 1);
        }
    }
}

/// No piece holds the tag that would have ended it: text holds no opening tag, a thought no closing
/// one.
pub proof fn pieces_hold_no_ending_tag(s: Seq<char>, thinking: bool, k: int)
    requires
        0 <= k < pieces(s, thinking).len(),
    ensures
        !text::occurs(
            pieces(s, thinking)[k].chars,
            ending_tag(pieces(s, thinking)[k].thought),
        ),
    decreases s.len(),
{
    let tag = ending_tag(thinking);
    text::lemma_first_occurrence(s, tag);
    if let Some(i) = text::first_occurrence(s, tag) {
        if k > 0 {
            let rest = s.skip(i + tag.len());
            assert(pieces(s, thinking)[k] == pieces(rest, !thinking)[k - 1]);
            pieces_hold_no_ending_tag(rest, !thinking, k - 1);
        } else {
            let head = s.take(i);
            assert forall|j: int| !text::occurs_at(head, tag, j) by {
                if text::occurs_at(head, tag, j) {
                    assert(s.subrange(j, j + tag.len()) == head.subrange(j, j + tag.len()));
                    assert(text::occurs_at(s, tag, j));
                }
            }
        }
    }
}

/// Whether some tag begins in `a` and ends in the `b` that follows it.
pub open spec fn cuts_a_tag(a: Seq<char>, b: Seq<char>) -> bool {
    exists|thinking: bool, i: int|
        #![trigger text::occurs_at(a + b, ending_tag(thinking), i)]
        text::occurs_at(a + b, ending_tag(thinking), i) && i < a.len() < i + ending_tag(
            thinking,
        ).len()
}

/// Where the border between two texts cuts no tag, it cuts none of what is left of the first.
proof fn lemma_cuts_in_the_rest(a: Seq<char>, b: Seq<char>, n: int)
    requires
        !cuts_a_tag(a, b),
        0 <= n <= a.len(),
    ensures
        !cuts_a_tag(a.skip(n), b),
{
    let rest = a.skip(n);
    assert forall|t: bool, k: int|
        #![trigger text::occurs_at(rest + b, ending_tag(t), k)]
        text::occurs_at(rest + b, ending_tag(t), k) implies !(k < rest.len() < k + ending_tag(
        t,
    ).len()) by {
        let tag = ending_tag(t);
        assert((a + b).subrange(k + n, k + n + tag.len()) == (rest + b).subrange(
            k,
            k + tag.len(),
        ));
        assert(text::occurs_at(a + b, ending_tag(t), k + n));
    }
}

/// What the pieces of `s` give where the first of them is `head`.
proof fn lemma_leading_piece(s: Seq<char>, thinking: bool, head: Piece, rest: Seq<Piece>)
    requires
        pieces(s, thinking) == seq![head] + rest,
        rest.len() > 0,
    ensures
        pieces(s, thinking).last() == rest.last(),
        text_of(pieces(s, thinking)) == (if head.thought {
            text_of(rest)
        } else {
            head.chars + text_of(rest)
        }),
        text::concat(thoughts_of(pieces(s, thinking))) == (if head.thought {
            head.chars + text::concat(thoughts_of(rest))
        } else {
            text::concat(thoughts_of(rest))
        }),
{
    lemma_one_piece(head);
    lemma_text_append(seq![head], rest);
    lemma_thoughts_append(seq![head], rest);
    text::lemma_concat_append(thoughts_of(seq![head]), thoughts_of(rest));
}

/// Whether reading `a` and then `b` gives the same text, the same thoughts and the same end as reading
/// both at once.
pub open spec fn reads_alike(a: Seq<char>, b: Seq<char>, thinking: bool) -> bool {
    let then = thinking_after(a, thinking);
    &&& text_of(pieces(a + b, thinking)) == text_of(pieces(a, thinking)) + text_of(pieces(b, then))
    &&& text::concat(thoughts_of(pieces(a + b, thinking))) == text::concat(
        thoughts_of(pieces(a, thinking)),
    ) + text::concat(thoughts_of(pieces(b, then)))
    &&& thinking_after(a + b, thinking) == thinking_after(b, then)
}

/// Where `a` ends nothing, its last piece goes on in `b`.
proof fn lemma_reading_on(a: Seq<char>, b: Seq<char>, thinking: bool)
    requires
        !cuts_a_tag(a, b),
        text::first_occurrence(a, ending_tag(thinking)) is None,
    ensures
        reads_alike(a, b, thinking),
{
    let tag = ending_tag(thinking);
    let s = a + b;
    lemma_one_piece(Piece { thought: thinking, chars: a });
    text::lemma_first_occurrence(a, tag);
    text::lemma_first_occurrence_behind(a, b, tag);
    text::lemma_first_occurrence(b, tag);
    if let Some(i) = text::first_occurrence(b, tag) {
        let at = a.len() + i;
        let rest = b.skip(i + tag.len());
        assert(s.skip(at + tag.len()) == rest);
        assert(s.take(at) == a + b.take(i));
        pieces_rejoin(rest, !thinking);
        let short = Piece { thought: thinking, chars: b.take(i) };
        let long = Piece { thought: thinking, chars: s.take(at) };
        lemma_leading_piece(b, thinking, short, pieces(rest, !thinking));
        lemma_leading_piece(s, thinking, long, pieces(rest, !thinking));
        let text = text_of(pieces(rest, !thinking));
        let thoughts = text::concat(thoughts_of(pieces(rest, !thinking)));
        assert((a + b.take(i)) + text == a + (b.take(i) + text));
        assert((a + b.take(i)) + thoughts == a + (b.take(i) + thoughts));
        assert(Seq::<char>::empty() + text == text);
        assert(Seq::<char>::empty() + thoughts == thoughts);
    } else {
        lemma_one_piece(Piece { thought: thinking, chars: b });
        lemma_one_piece(Piece { thought: thinking, chars: s });
    }
}

/// Where `a` begins with a whole piece, so does what it is the beginning of.
proof fn lemma_same_leading_piece(a: Seq<char>, b: Seq<char>, thinking: bool, i: int)
    requires
        text::first_occurrence(a, ending_tag(thinking)) == Some(i),
    ensures
        ({
            let head = Piece { thought: thinking, chars: a.take(i) };
            let rest = a.skip(i + ending_tag(thinking).len());
            &&& pieces(a, thinking) == seq![head] + pieces(rest, !thinking)
            &&& pieces(a + b, thinking) == seq![head] + pieces(rest + b, !thinking)
            &&& pieces(rest, !thinking).len() > 0
            &&& pieces(rest + b, !thinking).len() > 0
        }),
{
    let tag = ending_tag(thinking);
    let s = a + b;
    text::lemma_first_occurrence(a, tag);
    text::lemma_first_occurrence_before(a, b, tag);
    let rest = a.skip(i + tag.len());
    assert(s.skip(i + tag.len()) == rest + b);
    assert(s.take(i) == a.take(i));
    pieces_rejoin(rest, !thinking);
    pieces_rejoin(rest + b, !thinking);
}

/// One piece more before all of them.
proof fn lemma_behind_a_piece(head: Seq<char>, first: Seq<char>, then: Seq<char>, both: Seq<char>)
    requires
        both == first + then,
    ensures
        head + both == (head + first) + then,
{
    assert(head + (first + then) == (head + first) + then);
}

/// Where `a` begins with a whole piece, what counts is what follows it.
proof fn lemma_reading_behind(a: Seq<char>, b: Seq<char>, thinking: bool, i: int)
    requires
        text::first_occurrence(a, ending_tag(thinking)) == Some(i),
        reads_alike(a.skip(i + ending_tag(thinking).len()), b, !thinking),
    ensures
        reads_alike(a, b, thinking),
{
    let rest = a.skip(i + ending_tag(thinking).len());
    let head = Piece { thought: thinking, chars: a.take(i) };
    let then = thinking_after(rest, !thinking);
    let (first, both, last) = (pieces(rest, !thinking), pieces(rest + b, !thinking), pieces(b, then));
    lemma_same_leading_piece(a, b, thinking, i);
    lemma_leading_piece(a, thinking, head, first);
    lemma_leading_piece(a + b, thinking, head, both);
    lemma_behind_a_piece(head.chars, text_of(first), text_of(last), text_of(both));
    lemma_behind_a_piece(
        head.chars,
        text::concat(thoughts_of(first)),
        text::concat(thoughts_of(last)),
        text::concat(thoughts_of(both)),
    );
    assert(thinking_after(a, thinking) == then);
}

/// It does not matter how content is cut into deltas, as long as no tag is cut in two: reading `a`
/// and then `b` gives the same text, the same thoughts and the same end as reading both at once.
pub proof fn cuts_outside_tags_do_not_matter(a: Seq<char>, b: Seq<char>, thinking: bool)
    requires
        !cuts_a_tag(a, b),
    ensures
        reads_alike(a, b, thinking),
    decreases a.len(),
{
    let tag = ending_tag(thinking);
    text::lemma_first_occurrence(a, tag);
    if let Some(i) = text::first_occurrence(a, tag) {
        lemma_cuts_in_the_rest(a, b, i + tag.len());
        cuts_outside_tags_do_not_matter(a.skip(i + tag.len()), b, !thinking);
        lemma_reading_behind(a, b, thinking, i);
    } else {
        lemma_reading_on(a, b, thinking);
    }
}

/// Whether `tag` stands in `s` at some place before `end`.
pub open spec fn stands_before(s: Seq<char>, tag: Seq<char>, end: int) -> bool {
    exists|i: int|
        0 <= i < end && i + tag.len() <= s.len() && #[trigger] s.subrange(i, i + tag.len()) == tag
}

/// The tags are `<think>` and `</think>`.
pub proof fn tags_are_spelled_out()
    ensures
        ending_tag(false) == "<think>"@,
        ending_tag(true) == "</think>"@,
{
    reveal_strlit("<think>");
    reveal_strlit("</think>");
    assert(open_tag() == "<think>"@);
    assert(close_tag() == "</think>"@);
}

/// What is read in one go: its text, its thoughts and whether it ends inside a thought.
proof fn lemma_reading_a_piece(a: Seq<char>, b: Seq<char>, thinking: bool)
    requires
        !stands_before(
            a + ending_tag(thinking) + b,
            ending_tag(thinking),
            a.len() as int,
        ),
    ensures
        ({
            let s = a + ending_tag(thinking) + b;
            &&& pieces(s, thinking) == seq![Piece { thought: thinking, chars: a }] + pieces(
                b,
                !thinking,
            )
            &&& pieces(b, !thinking).len() > 0
        }),
{
    let tag = ending_tag(thinking);
    let s = a + tag + b;
    assert(s.subrange(a.len() as int, a.len() as int + tag.len()) == tag);
    assert forall|j: int| 0 <= j < a.len() implies !text::occurs_at(s, tag, j) by {
        if text::occurs_at(s, tag, j) {
            assert(s.subrange(j, j + tag.len()) == tag);
        }
    }
    assert(text::is_first_occurrence(s, tag, a.len() as int));
    text::lemma_first_occurrence_at(s, tag, a.len() as int);
    assert(s.take(a.len() as int) == a);
    assert(s.skip(a.len() as int + tag.len()) == b);
    pieces_rejoin(b, !thinking);
}

/// What the thoughts of a list of one piece are.
proof fn lemma_one_thought(p: Piece)
    ensures
        thoughts_of(seq![p]) == (if p.thought && p.chars.len() > 0 {
            seq![p.chars]
        } else {
            Seq::empty()
        }),
{
    assert(seq![p].drop_last() == Seq::<Piece>::empty());
    reveal_with_fuel(thoughts_of, 2);
}

/// Outside a thought all that stands before the first opening tag is text, and what follows the tag
/// is read inside a thought.
pub proof fn text_goes_up_to_the_opening_tag(a: Seq<char>, b: Seq<char>)
    requires
        !stands_before(a + "<think>"@ + b, "<think>"@, a.len() as int),
    ensures
        ({
            let s = a + "<think>"@ + b;
            &&& text_of(pieces(s, false)) == a + text_of(pieces(b, true))
            &&& thoughts_of(pieces(s, false)) == thoughts_of(pieces(b, true))
            &&& thinking_after(s, false) == thinking_after(b, true)
        }),
{
    tags_are_spelled_out();
    let head = Piece { thought: false, chars: a };
    lemma_reading_a_piece(a, b, false);
    lemma_one_piece(head);
    lemma_one_thought(head);
    lemma_text_append(seq![head], pieces(b, true));
    lemma_thoughts_append(seq![head], pieces(b, true));
    assert(Seq::<Seq<char>>::empty() + thoughts_of(pieces(b, true)) == thoughts_of(pieces(b, true)));
}

/// Inside a thought all that stands before the first closing tag is one thought, unless it is empty,
/// and what follows the tag is read outside a thought.
pub proof fn a_thought_goes_up_to_the_closing_tag(a: Seq<char>, b: Seq<char>)
    requires
        !stands_before(a + "</think>"@ + b, "</think>"@, a.len() as int),
    ensures
        ({
            let s = a + "</think>"@ + b;
            &&& text_of(pieces(s, true)) == text_of(pieces(b, false))
            &&& thoughts_of(pieces(s, true)) == (if a.len() > 0 {
                seq![a]
            } else {
                Seq::empty()
            }) + thoughts_of(pieces(b, false))
            &&& thinking_after(s, true) == thinking_after(b, false)
        }),
{
    tags_are_spelled_out();
    let head = Piece { thought: true, chars: a };
    lemma_reading_a_piece(a, b, true);
    lemma_one_piece(head);
    lemma_one_thought(head);
    lemma_text_append(seq![head], pieces(b, false));
    lemma_thoughts_append(seq![head], pieces(b, false));
    assert(Seq::<char>::empty() + text_of(pieces(b, false)) == text_of(pieces(b, false)));
}

/// What holds no tag that would end it is all text outside a thought, and all one thought inside,
/// unless it is empty; and it ends where it began.
pub proof fn content_without_a_tag_is_all_of_a_sort(s: Seq<char>)
    ensures
        !stands_before(s, "<think>"@, s.len() as int) ==> {
            &&& text_of(pieces(s, false)) == s
            &&& thoughts_of(pieces(s, false)) == Seq::<Seq<char>>::empty()
            &&& !thinking_after(s, false)
        },
        !stands_before(s, "</think>"@, s.len() as int) ==> {
            &&& text_of(pieces(s, true)) == Seq::<char>::empty()
            &&& thoughts_of(pieces(s, true)) == (if s.len() > 0 {
                seq![s]
            } else {
                Seq::empty()
            })
            &&& thinking_after(s, true)
        },
{
    tags_are_spelled_out();
    assert forall|thinking: bool| !stands_before(
        s,
        #[trigger] ending_tag(thinking),
        s.len() as int,
    ) implies pieces(s, thinking) == seq![Piece { thought: thinking, chars: s }] by {
        let tag = ending_tag(thinking);
        text::lemma_first_occurrence(s, tag);
        if text::occurs(s, tag) {
            let i = choose|i: int| text::occurs_at(s, tag, i);
            assert(s.subrange(i, i + tag.len()) == tag);
        }
    }
    lemma_one_piece(Piece { thought: false, chars: s });
    lemma_one_thought(Piece { thought: false, chars: s });
    lemma_one_piece(Piece { thought: true, chars: s });
    lemma_one_thought(Piece { thought: true, chars: s });
    assert(ending_tag(false).len() > 0 && ending_tag(true).len() > 0);
}

} // verus!
