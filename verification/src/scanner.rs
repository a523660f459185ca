//! Delimiter scanner: finds literal code spans and shortcode boundaries in raw text.
//!
//! Everything here works on the UTF-8 bytes of the text and yields byte offsets.
//! All delimiters are ASCII, so every offset that is returned is a character
//! boundary of the text.

use vstd::prelude::*;
use vstd::string::*;

verus! {

/// `{{`, which opens an inline shortcode.
pub open spec fn inline_open() -> Seq<u8> {
    seq![123u8, 123u8]
}

/// `}}`, which closes an inline shortcode.
pub open spec fn inline_close() -> Seq<u8> {
    seq![125u8, 125u8]
}

/// `{%`, which opens a block shortcode tag.
pub open spec fn block_open() -> Seq<u8> {
    seq![123u8, 37u8]
}

/// `%}`, which closes a block shortcode tag.
pub open spec fn block_close() -> Seq<u8> {
    seq![37u8, 125u8]
}

/// `{% end`, which begins every closing tag of a block shortcode.
pub open spec fn block_end_keyword() -> Seq<u8> {
    seq![123u8, 37u8, 32u8, 101u8, 110u8, 100u8]
}

/// A single backtick.
pub open spec fn tick() -> Seq<u8> {
    seq![96u8]
}

/// Three backticks.
pub open spec fn fence() -> Seq<u8> {
    seq![96u8, 96u8, 96u8]
}

/// `pat` occurs in `s` at offset `i`.
pub open spec fn occurs_at(s: Seq<u8>, pat: Seq<u8>, i: int) -> bool {
    &&& 0 <= i
    &&& i + pat.len() <= s.len()
    &&& forall|k: int| 0 <= k < pat.len() ==> s[i + k] == #[trigger] pat[k]
}

/// The least offset at or after `from` at which `pat` occurs in `s`.
pub open spec fn first_match(s: Seq<u8>, pat: Seq<u8>, from: int) -> Option<int>
    decreases s.len() - from,
{
    if from < 0 || from + pat.len() > s.len() {
        None
    } else if occurs_at(s, pat, from) {
        Some(from)
    } else {
        first_match(s, pat, from + 1)
    }
}

/// What `first_match` returns is an occurrence, and the first one.
pub proof fn lemma_first_match(s: Seq<u8>, pat: Seq<u8>, from: int)
    requires
        0 <= from,
    ensures
        first_match(s, pat, from) matches Some(i) ==> {
            &&& from <= i
            &&& occurs_at(s, pat, i)
            &&& forall|j: int| from <= j < i ==> !occurs_at(s, pat, j)
        },
        first_match(s, pat, from) is None ==> forall|j: int| from <= j ==> !occurs_at(s, pat, j),
    decreases s.len() - from,
{
    if from + pat.len() > s.len() {
    } else if occurs_at(s, pat, from) {
    } else {
        lemma_first_match(s, pat, from + 1);
    }
}

/// An occurrence with none before it is what `first_match` returns.
pub proof fn lemma_first_match_is(s: Seq<u8>, pat: Seq<u8>, from: int, i: int)
    requires
        0 <= from <= i,
        occurs_at(s, pat, i),
        forall|j: int| from <= j < i ==> !occurs_at(s, pat, j),
    ensures
        first_match(s, pat, from) == Some(i),
    decreases i - from,
{
    if from < i {
        lemma_first_match_is(s, pat, from + 1, i);
    }
}

/// Byte offsets of a shortcode inside the text that was scanned.
#[derive(Clone, Copy, Debug, PartialEq, Eq)]
pub enum ShortcodeIdx {
    /// An inline shortcode: the offset of its `{{` and the offset of the matching `}}`.
    Inline(usize, usize),
    /// A block shortcode: `def` runs from the `{%` of the opening tag to its `%}`,
    /// `end` from the `{% end` of the matching closing tag to its `%}`.
    Block { def: (usize, usize), end: (usize, usize) },
}

/// The matching `}}` for an inline shortcode.
///
/// `cur` is the cursor, which stands behind the delimiter that was consumed
/// last, and `level` the number of pairs that are open. The next `{{` and the
/// next `}}` from the cursor on race: an opener that comes first opens one
/// more pair, otherwise the closer closes one, and the cursor moves behind the
/// delimiter that won. The closer that brings the level to zero is the result.
pub open spec fn inline_end(s: Seq<u8>, cur: int, level: nat) -> Option<int>
    decreases s.len() + 1 - cur,
{
    if cur < 0 || level == 0 {
        None
    } else {
        let opener = first_match(s, inline_open(), cur);
        match first_match(s, inline_close(), cur) {
            None => None,
            Some(e) => {
                proof {
                    lemma_first_match(s, inline_open(), cur);
                    lemma_first_match(s, inline_close(), cur);
                }
                if opener is Some && opener->0 < e {
                    inline_end(s, opener->0 + 2, level + 1)
                } else if level == 1 {
                    Some(e)
                } else {
                    inline_end(s, e + 2, (level - 1) as nat)
                }
            },
        }
    }
}

/// The `{% end` that matches an opening tag of a block shortcode.
///
/// The race is between the next `{%` and the next `{% end` from the cursor
/// `cur` on. A `{%` that comes first opens one more block and the cursor
/// moves behind it; otherwise the `{% end` closes one and the cursor moves
/// behind these six bytes. The name behind `end` is not looked at.
pub open spec fn block_end(s: Seq<u8>, cur: int, level: nat) -> Option<int>
    decreases s.len() + 1 - cur,
{
    if cur < 0 || level == 0 {
        None
    } else {
        let opener = first_match(s, block_open(), cur);
        match first_match(s, block_end_keyword(), cur) {
            None => None,
            Some(e) => {
                proof {
                    lemma_first_match(s, block_open(), cur);
                    lemma_first_match(s, block_end_keyword(), cur);
                }
                if opener is Some && opener->0 < e {
                    block_end(s, opener->0 + 2, level + 1)
                } else if level == 1 {
                    Some(e)
                } else {
                    block_end(s, e + 6, (level - 1) as nat)
                }
            },
        }
    }
}

/// The inline shortcode whose `{{` stands at `start`.
pub open spec fn inline_at(s: Seq<u8>, start: int) -> Option<ShortcodeIdx> {
    match inline_end(s, start + 2, 1) {
        Some(e) => Some(ShortcodeIdx::Inline(start as usize, e as usize)),
        None => None,
    }
}

/// The block shortcode whose opening tag begins at `start`.
pub open spec fn block_at(s: Seq<u8>, start: int) -> Option<ShortcodeIdx> {
    match first_match(s, block_close(), start) {
        None => None,
        Some(def_end) => match block_end(s, def_end + 2, 1) {
            None => None,
            Some(end_start) => match first_match(s, block_close(), end_start + 6) {
                None => None,
                Some(end_end) => Some(
                    ShortcodeIdx::Block {
                        def: (start as usize, def_end as usize),
                        end: (end_start as usize, end_end as usize),
                    },
                ),
            },
        },
    }
}

/// The first opening delimiter at or after `from`, `{{` or `{%`, whichever
/// comes first.
pub open spec fn next_opener(s: Seq<u8>, from: int) -> Option<int> {
    let inline = first_match(s, inline_open(), from);
    let block = first_match(s, block_open(), from);
    match inline {
        None => block,
        Some(i) => match block {
            None => inline,
            Some(b) => if i < b {
                inline
            } else {
                block
            },
        },
    }
}

/// The shortcode that the opening delimiter at `start` begins: an inline one
/// where `{{` stands there, else a block one.
pub open spec fn shortcode_at(s: Seq<u8>, start: int) -> Option<ShortcodeIdx> {
    if occurs_at(s, inline_open(), start) {
        inline_at(s, start)
    } else {
        block_at(s, start)
    }
}

/// The first shortcode of `s` at or after `from`: whichever of `{{` and `{%`
/// comes first decides between an inline and a block shortcode.
pub open spec fn shortcode_from(s: Seq<u8>, from: int) -> Option<ShortcodeIdx> {
    match next_opener(s, from) {
        None => None,
        Some(start) => shortcode_at(s, start),
    }
}

/// The first shortcode of `s`.
pub open spec fn shortcode_in(s: Seq<u8>) -> Option<ShortcodeIdx> {
    shortcode_from(s, 0)
}

/// The first opening delimiter is an occurrence of `{{` or of `{%`, and neither
/// occurs before it.
pub proof fn lemma_next_opener(s: Seq<u8>, from: int)
    requires
        0 <= from,
    ensures
        next_opener(s, from) matches Some(o) ==> {
            &&& from <= o
            &&& o + 2 <= s.len()
            &&& occurs_at(s, inline_open(), o) || occurs_at(s, block_open(), o)
            &&& occurs_at(s, inline_open(), o) ==> first_match(s, inline_open(), from) == Some(o)
            &&& !occurs_at(s, inline_open(), o) ==> first_match(s, block_open(), from) == Some(o)
        },
        next_opener(s, from) is None ==> forall|j: int|
            from <= j ==> !occurs_at(s, inline_open(), j) && !occurs_at(s, block_open(), j),
{
    lemma_first_match(s, inline_open(), from);
    lemma_first_match(s, block_open(), from);
    if let Some(o) = next_opener(s, from) {
        if occurs_at(s, inline_open(), o) && occurs_at(s, block_open(), o) {
            assert(s[o + 1] == inline_open()[1]);
            assert(s[o + 1] == block_open()[1]);
        }
    }
}

/// The closing delimiter of the code span that opens at `start`: three
/// backticks where two more backticks follow the first, else one backtick.
pub open spec fn span_delimiter(s: Seq<u8>, start: int) -> Seq<u8> {
    if start + 2 < s.len() && s[start + 1] == 96u8 && s[start + 2] == 96u8 {
        fence()
    } else {
        tick()
    }
}

/// The first code span at or after `from`: from its opening backtick to just
/// behind its closing delimiter.
pub open spec fn code_span_from(s: Seq<u8>, from: int) -> Option<(int, int)> {
    match first_match(s, tick(), from) {
        None => None,
        Some(start) => {
            let delimiter = span_delimiter(s, start);
            match first_match(s, delimiter, start + 1) {
                None => None,
                Some(close) => Some((start, close + delimiter.len())),
            }
        },
    }
}

/// All code spans at or after `from`, each search resuming where the span before ended.
pub open spec fn code_spans_from(s: Seq<u8>, from: int) -> Seq<(int, int)>
    decreases s.len() - from,
{
    if from < 0 {
        Seq::empty()
    } else {
        match code_span_from(s, from) {
            None => Seq::empty(),
            Some(span) => if from < span.1 <= s.len() {
                seq![span] + code_spans_from(s, span.1)
            } else {
                Seq::empty()
            },
        }
    }
}

/// The spans `v` holds, as pairs of mathematical integers.
pub open spec fn spans_view(v: Seq<(usize, usize)>) -> Seq<(int, int)> {
    v.map_values(|p: (usize, usize)| (p.0 as int, p.1 as int))
}

/// An optional offset as an optional mathematical integer.
pub open spec fn offset_view(r: Option<usize>) -> Option<int> {
    match r {
        Some(i) => Some(i as int),
        None => None,
    }
}

/// A code span lies inside the text and is not empty.
pub proof fn lemma_code_span_bounds(s: Seq<u8>, from: int)
    requires
        0 <= from,
    ensures
        code_span_from(s, from) matches Some(span) ==> from <= span.0 && span.0 + 2 <= span.1
            <= s.len(),
{
    lemma_first_match(s, tick(), from);
    if let Some(start) = first_match(s, tick(), from) {
        lemma_first_match(s, span_delimiter(s, start), start + 1);
    }
}

/// Code spans come in document order and do not overlap: each begins where the
/// one before it ended, or later.
pub proof fn lemma_code_spans_ordered(s: Seq<u8>, from: int)
    requires
        0 <= from,
    ensures
        forall|k: int|
            0 <= k < code_spans_from(s, from).len() ==> {
                let span = #[trigger] code_spans_from(s, from)[k];
                from <= span.0 && span.0 < span.1 <= s.len()
            },
        forall|k: int, l: int|
            0 <= k < l < code_spans_from(s, from).len() ==> (#[trigger] code_spans_from(
                s,
                from,
            )[k]).1 <= (#[trigger] code_spans_from(s, from)[l]).0,
    decreases s.len() - from,
{
    lemma_code_span_bounds(s, from);
    if let Some(span) = code_span_from(s, from) {
        lemma_code_spans_ordered(s, span.1);
        let rest = code_spans_from(s, span.1);
        let all = code_spans_from(s, from);
        assert(all == seq![span] + rest);
        assert forall|k: int| 0 <= k < all.len() implies {
            let sp = #[trigger] all[k];
            from <= sp.0 && sp.0 < sp.1 <= s.len()
        } by {
            if k > 0 {
                assert(all[k] == rest[k - 1]);
            }
        }
        assert forall|k: int, l: int| 0 <= k < l < all.len() implies (#[trigger] all[k]).1 <= (
        #[trigger] all[l]).0 by {
            assert(all[l] == rest[l - 1]);
            if k > 0 {
                assert(all[k] == rest[k - 1]);
            }
        }
    }
}

/// The bytes of `{% box %}{% box %}{% end_box %}{% end_box %}`: a block
/// shortcode that holds one of the same name.
pub open spec fn nested_boxes() -> Seq<u8> {
    seq![
        123u8, 37u8, 32u8, 98u8, 111u8, 120u8, 32u8, 37u8, 125u8,
        123u8, 37u8, 32u8, 98u8, 111u8, 120u8, 32u8, 37u8, 125u8,
        123u8, 37u8, 32u8, 101u8, 110u8, 100u8, 95u8, 98u8, 111u8, 120u8, 32u8, 37u8, 125u8,
        123u8, 37u8, 32u8, 101u8, 110u8, 100u8, 95u8, 98u8, 111u8, 120u8, 32u8, 37u8, 125u8,
    ]
}

/// `pat` does not occur in `nested_boxes` at offset `j`: some byte of it differs.
spec fn boxes_differ(pat: Seq<u8>, j: int) -> bool {
    exists|k: int| 0 <= k < pat.len() && j + k < 44 && nested_boxes()[j + k] != #[trigger] pat[k]
}

/// Within a copy of `nested_boxes` that stands at `p`, the first occurrence of
/// `pat` at or after `p + from` is the one at `p + at`.
proof fn lemma_match_in_boxes(s: Seq<u8>, p: int, pat: Seq<u8>, from: int, at: int)
    requires
        0 <= p,
        p + 44 <= s.len(),
        forall|k: int| 0 <= k < 44 ==> s[p + k] == #[trigger] nested_boxes()[k],
        0 <= from <= at,
        1 <= pat.len(),
        at + pat.len() <= 44,
        forall|k: int| 0 <= k < pat.len() ==> nested_boxes()[at + k] == #[trigger] pat[k],
        forall|j: int| from <= j < at ==> #[trigger] boxes_differ(pat, j),
    ensures
        first_match(s, pat, p + from) == Some(p + at),
{
    assert(occurs_at(s, pat, p + at)) by {
        assert forall|k: int| 0 <= k < pat.len() implies s[p + at + k] == #[trigger] pat[k] by {
            assert(s[p + (at + k)] == nested_boxes()[at + k]);
        }
    }
    assert forall|j: int| p + from <= j < p + at implies !occurs_at(s, pat, j) by {
        let i = j - p;
        assert(boxes_differ(pat, i));
        let k = choose|k: int|
            0 <= k < pat.len() && i + k < 44 && nested_boxes()[i + k] != #[trigger] pat[k];
        assert(s[p + (i + k)] == nested_boxes()[i + k]);
        assert(s[j + k] != pat[k]);
    }
    lemma_first_match_is(s, pat, p + from, p + at);
}

/// Where a copy of `nested_boxes` stands at `p`, the delimiters of the scan
/// are found where they stand in it.
proof fn lemma_boxes_delimiters(s: Seq<u8>, p: int)
    requires
        0 <= p,
        p + 44 <= s.len(),
        forall|k: int| 0 <= k < 44 ==> s[p + k] == #[trigger] nested_boxes()[k],
    ensures
        first_match(s, block_close(), p) == Some(p + 7),
        first_match(s, block_open(), p + 9) == Some(p + 9),
        first_match(s, block_end_keyword(), p + 9) == Some(p + 18),
        first_match(s, block_open(), p + 11) == Some(p + 18),
        first_match(s, block_end_keyword(), p + 11) == Some(p + 18),
        first_match(s, block_open(), p + 24) == Some(p + 31),
        first_match(s, block_end_keyword(), p + 24) == Some(p + 31),
        first_match(s, block_close(), p + 37) == Some(p + 42),
{
    assert(first_match(s, block_close(), p) == Some(p + 7)) by {
        lemma_boxes_close(0, 7);
        lemma_match_in_boxes(s, p, block_close(), 0, 7);
    }
    assert(first_match(s, block_open(), p + 9) == Some(p + 9)) by {
        lemma_boxes_open(9, 9);
        lemma_match_in_boxes(s, p, block_open(), 9, 9);
    }
    assert(first_match(s, block_end_keyword(), p + 9) == Some(p + 18)) by {
        lemma_boxes_keyword(9, 18);
        lemma_match_in_boxes(s, p, block_end_keyword(), 9, 18);
    }
    assert(first_match(s, block_open(), p + 11) == Some(p + 18)) by {
        lemma_boxes_open(11, 18);
        lemma_match_in_boxes(s, p, block_open(), 11, 18);
    }
    assert(first_match(s, block_end_keyword(), p + 11) == Some(p + 18)) by {
        lemma_boxes_keyword(11, 18);
        lemma_match_in_boxes(s, p, block_end_keyword(), 11, 18);
    }
    assert(first_match(s, block_open(), p + 24) == Some(p + 31)) by {
        lemma_boxes_open(24, 31);
        lemma_match_in_boxes(s, p, block_open(), 24, 31);
    }
    assert(first_match(s, block_end_keyword(), p + 24) == Some(p + 31)) by {
        lemma_boxes_keyword(24, 31);
        lemma_match_in_boxes(s, p, block_end_keyword(), 24, 31);
    }
    assert(first_match(s, block_close(), p + 37) == Some(p + 42)) by {
        lemma_boxes_close(37, 42);
        lemma_match_in_boxes(s, p, block_close(), 37, 42);
    }
}

/// Where the delimiters are found as in `nested_boxes`, the block that opens
/// at `p` is closed by the second closing tag.
proof fn lemma_boxes_block(s: Seq<u8>, p: int)
    requires
        0 <= p,
        p + 44 <= s.len() <= usize::MAX,
        first_match(s, block_close(), p) == Some(p + 7),
        first_match(s, block_open(), p + 9) == Some(p + 9),
        first_match(s, block_end_keyword(), p + 9) == Some(p + 18),
        first_match(s, block_open(), p + 11) == Some(p + 18),
        first_match(s, block_end_keyword(), p + 11) == Some(p + 18),
        first_match(s, block_open(), p + 24) == Some(p + 31),
        first_match(s, block_end_keyword(), p + 24) == Some(p + 31),
        first_match(s, block_close(), p + 37) == Some(p + 42),
    ensures
        block_at(s, p) == Some(
            ShortcodeIdx::Block {
                def: (p as usize, (p + 7) as usize),
                end: ((p + 31) as usize, (p + 42) as usize),
            },
        ),
{
    // Third round: the outer `{% end_box %}` closes the outer pair.
    assert(block_end(s, p + 24, 1) == Some(p + 31));
    // Second round: the inner `{% end_box %}` closes the inner pair.
    assert(block_end(s, p + 11, 2) == Some(p + 31));
    // First round: the inner `{% box %}` opens before any `{% end`.
    assert(block_end(s, p + 9, 1) == Some(p + 31));
}

/// Balanced nesting: in a text that holds
/// `{% box %}{% box %}{% end_box %}{% end_box %}` with no `{{` and no `{%`
/// before it, the first shortcode is the outer pair: its opening tag is the
/// first `{% box %}` and its closing tag the last `{% end_box %}`, whatever
/// follows.
pub proof fn lemma_balanced_nesting(prefix: Seq<u8>, suffix: Seq<u8>)
    requires
        prefix.len() + 44 + suffix.len() <= usize::MAX,
        forall|j: int|
            0 <= j < prefix.len() ==> !occurs_at(
                prefix + nested_boxes() + suffix,
                inline_open(),
                j,
            ) && !occurs_at(prefix + nested_boxes() + suffix, block_open(), j),
    ensures
        shortcode_in(prefix + nested_boxes() + suffix) == Some(
            ShortcodeIdx::Block {
                def: (prefix.len() as usize, (prefix.len() + 7) as usize),
                end: ((prefix.len() + 31) as usize, (prefix.len() + 42) as usize),
            },
        ),
{
    let s = prefix + nested_boxes() + suffix;
    let p = prefix.len() as int;
    let b = nested_boxes();
    assert(b.len() == 44);
    assert forall|k: int| 0 <= k < 44 implies s[p + k] == #[trigger] nested_boxes()[k] by {}
    // The first opening delimiter is the `{%` at `p`.
    assert(first_match(s, block_open(), 0) == Some(p)) by {
        assert(occurs_at(s, block_open(), p)) by {
            assert(s[p + 0] == b[0] && s[p + 1] == b[1]);
        }
        lemma_first_match_is(s, block_open(), 0, p);
    }
    lemma_first_match(s, inline_open(), 0);
    assert(!occurs_at(s, inline_open(), p)) by {
        assert(s[p + 1] == b[1]);
        assert(inline_open()[1] == 123u8);
    }
    assert(next_opener(s, 0) == Some(p));
    assert(shortcode_in(s) == block_at(s, p));
    lemma_boxes_delimiters(s, p);
    lemma_boxes_block(s, p);
}

/// The offsets at which `nested_boxes` holds `{`.
proof fn lemma_boxes_braces(j: int)
    requires
        0 <= j < 44,
    ensures
        nested_boxes()[j] == 123u8 <==> (j == 0 || j == 9 || j == 18 || j == 31),
        nested_boxes()[j] == 37u8 <==> (j == 1 || j == 7 || j == 10 || j == 16 || j == 19 || j
            == 29 || j == 32 || j == 42),
{
    let b = nested_boxes();
    if j < 11 {
        assert(b[0] == 123 && b[1] == 37 && b[2] == 32 && b[3] == 98 && b[4] == 111 && b[5] == 120
            && b[6] == 32 && b[7] == 37 && b[8] == 125 && b[9] == 123 && b[10] == 37);
    } else if j < 22 {
        assert(b[11] == 32 && b[12] == 98 && b[13] == 111 && b[14] == 120 && b[15] == 32 && b[16]
            == 37 && b[17] == 125 && b[18] == 123 && b[19] == 37 && b[20] == 32 && b[21] == 101);
    } else if j < 33 {
        assert(b[22] == 110 && b[23] == 100 && b[24] == 95 && b[25] == 98 && b[26] == 111 && b[27]
            == 120 && b[28] == 32 && b[29] == 37 && b[30] == 125 && b[31] == 123 && b[32] == 37);
    } else {
        assert(b[33] == 32 && b[34] == 101 && b[35] == 110 && b[36] == 100 && b[37] == 95 && b[38]
            == 98 && b[39] == 111 && b[40] == 120 && b[41] == 32 && b[42] == 37 && b[43] == 125);
    }
}

/// `{%` stands at `at` in `nested_boxes` and nowhere in `from..at`.
proof fn lemma_boxes_open(from: int, at: int)
    requires
        0 <= from <= at,
        at == 0 || at == 9 || at == 18 || at == 31,
        !(from <= 0 < at) && !(from <= 9 < at) && !(from <= 18 < at) && !(from <= 31 < at),
    ensures
        forall|k: int| 0 <= k < 2 ==> nested_boxes()[at + k] == #[trigger] block_open()[k],
        forall|j: int| from <= j < at ==> #[trigger] boxes_differ(block_open(), j),
{
    lemma_boxes_braces(at);
    lemma_boxes_braces(at + 1);
    assert forall|j: int| from <= j < at implies #[trigger] boxes_differ(block_open(), j) by {
        lemma_boxes_braces(j);
        assert(nested_boxes()[j + 0] != block_open()[0]);
    }
}

/// `{% end` stands at `at` in `nested_boxes` and nowhere in `from..at`.
proof fn lemma_boxes_keyword(from: int, at: int)
    requires
        0 <= from <= at,
        at == 18 || at == 31,
        !(from <= 18 < at) && !(from <= 31 < at),
    ensures
        forall|k: int|
            0 <= k < 6 ==> nested_boxes()[at + k] == #[trigger] block_end_keyword()[k],
        forall|j: int| from <= j < at ==> #[trigger] boxes_differ(block_end_keyword(), j),
{
    let b = nested_boxes();
    assert(b[18] == 123 && b[19] == 37 && b[20] == 32 && b[21] == 101 && b[22] == 110 && b[23]
        == 100);
    assert(b[31] == 123 && b[32] == 37 && b[33] == 32 && b[34] == 101 && b[35] == 110 && b[36]
        == 100);
    assert forall|j: int| from <= j < at implies #[trigger] boxes_differ(block_end_keyword(), j) by {
        lemma_boxes_braces(j);
        if j == 0 || j == 9 {
            assert(b[3] == 98 && b[12] == 98);
            assert(nested_boxes()[j + 3] != block_end_keyword()[3]);
        } else {
            assert(nested_boxes()[j + 0] != block_end_keyword()[0]);
        }
    }
}

/// `%}` stands at `at` in `nested_boxes` and nowhere in `from..at`.
proof fn lemma_boxes_close(from: int, at: int)
    requires
        0 <= from <= at,
        at == 7 || at == 16 || at == 29 || at == 42,
        !(from <= 7 < at) && !(from <= 16 < at) && !(from <= 29 < at) && !(from <= 42 < at),
    ensures
        forall|k: int| 0 <= k < 2 ==> nested_boxes()[at + k] == #[trigger] block_close()[k],
        forall|j: int| from <= j < at ==> #[trigger] boxes_differ(block_close(), j),
{
    let b = nested_boxes();
    lemma_boxes_braces(at);
    assert(b[8] == 125 && b[17] == 125 && b[30] == 125 && b[43] == 125);
    assert forall|j: int| from <= j < at implies #[trigger] boxes_differ(block_close(), j) by {
        lemma_boxes_braces(j);
        if j == 1 || j == 10 || j == 19 || j == 32 {
            assert(b[2] == 32 && b[11] == 32 && b[20] == 32 && b[33] == 32);
            assert(nested_boxes()[j + 1] != block_close()[1]);
        } else {
            assert(nested_boxes()[j + 0] != block_close()[0]);
        }
    }
}

/// Does `pat` occur in `s` at offset `i`?
pub(crate) fn matches_at(s: &[u8], pat: &[u8], i: usize) -> (r: bool)
    requires
        i + pat.len() <= s.len(),
    ensures
        r == occurs_at(s@, pat@, i as int),
{
    let mut k: usize = 0;
    while k < pat.len()
        invariant
            k <= pat.len(),
            i + pat.len() <= s.len(),
            forall|j: int| 0 <= j < k ==> s@[i + j] == #[trigger] pat@[j],
        decreases pat.len() - k,
    {
        if s[i + k] != pat[k] {
            return false;
        }
        k += 1;
    }
    true
}

/// The first offset at or after `from` at which `pat` occurs in `s`.
pub(crate) fn find_from(s: &[u8], pat: &[u8], from: usize) -> (r: Option<usize>)
    ensures
        offset_view(r) == first_match(s@, pat@, from as int),
{
    if pat.len() > s.len() || from > s.len() - pat.len() {
        return None;
    }
    let last: usize = s.len() - pat.len();
    let mut i: usize = from;
    while i <= last
        invariant
            from <= i <= last + 1,
            last == s.len() - pat.len(),
            first_match(s@, pat@, from as int) == first_match(s@, pat@, i as int),
        decreases last + 1 - i,
    {
        if matches_at(s, pat, i) {
            return Some(i);
        }
        i += 1;
    }
    None
}

/// The first offset at or after `base + skip` at which `pat` occurs in `s`.
fn find_after(s: &[u8], pat: &[u8], base: usize, skip: usize) -> (r: Option<usize>)
    requires
        pat.len() > 0,
    ensures
        offset_view(r) == first_match(s@, pat@, base + skip),
{
    if base > s.len() || s.len() - base < skip {
        None
    } else {
        find_from(s, pat, base + skip)
    }
}

/// The inline shortcode whose `{{` stands at `start`: the span from `start` to
/// the `}}` that balances it, or `None` where the text ends before the pairs balance.
pub fn extract_inline(start: usize, input: &str) -> (r: Option<ShortcodeIdx>)
    ensures
        r == inline_at(input.spec_bytes(), start as int),
{
    let s = input.as_bytes();
    let open: [u8; 2] = [123, 123];
    let close: [u8; 2] = [125, 125];
    assert(open@ =~= inline_open() && close@ =~= inline_close());
    let mut level: usize = 1;
    let mut cur: usize = start;
    loop
        invariant
            s@ == input.spec_bytes(),
            open@ == inline_open(),
            close@ == inline_close(),
            level >= 1,
            level <= cur + 1,
            inline_end(s@, cur + 2, level as nat) == inline_end(s@, start + 2, 1),
        decreases s.len() + 1 - cur,
    {
        let opener = find_after(s, open.as_slice(), cur, 2);
        let closer = find_after(s, close.as_slice(), cur, 2);
        proof {
            lemma_first_match(s@, inline_open(), cur + 2);
            lemma_first_match(s@, inline_close(), cur + 2);
        }
        let e = match closer {
            None => {
                return None;
            },
            Some(e) => e,
        };
        let nested = match opener {
            Some(o) => o < e,
            None => false,
        };
        if nested {
            level = level + 1;
            cur = opener.unwrap();
        } else if level == 1 {
            return Some(ShortcodeIdx::Inline(start, e));
        } else {
            level = level - 1;
            cur = e;
        }
    }
}

/// The block shortcode whose opening tag begins at `start`: the span of that tag
/// up to its `%}`, and the span of the `{% end` tag that balances it up to its
/// `%}`. `None` where a delimiter is missing before the tags balance.
pub fn extract_block(start: usize, input: &str) -> (r: Option<ShortcodeIdx>)
    ensures
        r == block_at(input.spec_bytes(), start as int),
{
    let s = input.as_bytes();
    let open: [u8; 2] = [123, 37];
    let close: [u8; 2] = [37, 125];
    let keyword: [u8; 6] = [123, 37, 32, 101, 110, 100];
    assert(open@ =~= block_open() && close@ =~= block_close() && keyword@ =~= block_end_keyword());
    proof {
        lemma_first_match(s@, block_close(), start as int);
    }
    let def_end = match find_after(s, close.as_slice(), start, 0) {
        None => {
            return None;
        },
        Some(e) => e,
    };
    let mut level: usize = 1;
    let mut cur: usize = def_end;
    let mut skip: usize = 2;
    let mut end_start: usize = 0;
    loop
        invariant_except_break
            level >= 1,
            level <= cur + 1,
            cur <= s.len() + 1,
            skip == 2 || skip == 6,
            block_end(s@, cur + skip, level as nat) == block_end(s@, def_end + 2, 1),
        invariant
            s@ == input.spec_bytes(),
            open@ == block_open(),
            keyword@ == block_end_keyword(),
            first_match(s@, block_close(), start as int) == Some(def_end as int),
        ensures
            block_end(s@, def_end + 2, 1) == Some(end_start as int),
        decreases s.len() + 1 - cur,
    {
        let opener = find_after(s, open.as_slice(), cur, skip);
        let closer = find_after(s, keyword.as_slice(), cur, skip);
        proof {
            lemma_first_match(s@, block_open(), cur + skip);
            lemma_first_match(s@, block_end_keyword(), cur + skip);
        }
        let e = match closer {
            None => {
                return None;
            },
            Some(e) => e,
        };
        let nested = match opener {
            Some(o) => o < e,
            None => false,
        };
        if nested {
            level = level + 1;
            cur = opener.unwrap();
            skip = 2;
        } else if level == 1 {
            end_start = e;
            break;
        } else {
            level = level - 1;
            cur = e;
            skip = 6;
        }
    }
    proof {
        lemma_first_match(s@, block_close(), end_start + 6);
    }
    match find_after(s, close.as_slice(), end_start, 6) {
        None => None,
        Some(end_end) => Some(
            ShortcodeIdx::Block { def: (start, def_end), end: (end_start, end_end) },
        ),
    }
}

/// The first opening delimiter of `s` at or after `from`, with whether it is `{{`.
fn find_opener_kind(s: &[u8], from: usize) -> (r: Option<(usize, bool)>)
    ensures
        match r {
            Some((o, inline)) => next_opener(s@, from as int) == Some(o as int) && inline
                == occurs_at(s@, inline_open(), o as int),
            None => next_opener(s@, from as int) is None,
        },
{
    let inline_pat: [u8; 2] = [123, 123];
    let block_pat: [u8; 2] = [123, 37];
    assert(inline_pat@ =~= inline_open() && block_pat@ =~= block_open());
    let start_inline = find_from(s, inline_pat.as_slice(), from);
    let start_block = find_from(s, block_pat.as_slice(), from);
    proof {
        lemma_next_opener(s@, from as int);
        lemma_first_match(s@, inline_open(), from as int);
        lemma_first_match(s@, block_open(), from as int);
    }
    match start_inline {
        None => match start_block {
            None => None,
            Some(b) => Some((b, false)),
        },
        Some(i) => match start_block {
            None => Some((i, true)),
            Some(b) => if i < b {
                Some((i, true))
            } else {
                Some((b, false))
            },
        },
    }
}

/// The offset of the first opening delimiter of `input`, `{{` or `{%`, at or
/// after the offset `from`.
pub fn find_opener(input: &str, from: usize) -> (r: Option<usize>)
    ensures
        offset_view(r) == next_opener(input.spec_bytes(), from as int),
{
    match find_opener_kind(input.as_bytes(), from) {
        None => None,
        Some((start, _)) => Some(start),
    }
}

/// The first shortcode of `input` at or after the offset `from`.
pub fn find_shortcode_from(input: &str, from: usize) -> (r: Option<ShortcodeIdx>)
    ensures
        r == shortcode_from(input.spec_bytes(), from as int),
{
    match find_opener_kind(input.as_bytes(), from) {
        None => None,
        Some((start, inline)) => if inline {
            extract_inline(start, input)
        } else {
            extract_block(start, input)
        },
    }
}

/// The first shortcode of `input`, inline or block, whichever opens first.
/// `None` where there is no opening delimiter or the first one is never balanced.
pub fn find_shortcode(input: &str) -> (r: Option<ShortcodeIdx>)
    ensures
        r == shortcode_in(input.spec_bytes()),
{
    find_shortcode_from(input, 0)
}

/// The first code span of `s` at or after `from`.
fn next_block_from(s: &[u8], from: usize) -> (r: Option<(usize, usize)>)
    ensures
        match r {
            Some(span) => code_span_from(s@, from as int) == Some((span.0 as int, span.1 as int)),
            None => code_span_from(s@, from as int) is None,
        },
{
    let one: [u8; 1] = [96];
    let three: [u8; 3] = [96, 96, 96];
    assert(one@ =~= tick() && three@ =~= fence());
    proof {
        lemma_first_match(s@, tick(), from as int);
    }
    let start = match find_from(s, one.as_slice(), from) {
        None => {
            return None;
        },
        Some(start) => start,
    };
    let triple = s.len() - start > 2 && s[start + 1] == 96 && s[start + 2] == 96;
    proof {
        lemma_first_match(s@, span_delimiter(s@, start as int), start + 1);
    }
    if triple {
        match find_from(s, three.as_slice(), start + 1) {
            None => None,
            Some(close) => Some((start, close + 3)),
        }
    } else {
        match find_from(s, one.as_slice(), start + 1) {
            None => None,
            Some(close) => Some((start, close + 1)),
        }
    }
}

/// The first code span of `input`: from its opening backtick to just behind the
/// delimiter that closes it. `None` where no backtick is found or the span is
/// never closed.
pub fn find_next_block(input: &str) -> (r: Option<(usize, usize)>)
    ensures
        match r {
            Some(span) => code_span_from(input.spec_bytes(), 0) == Some(
                (span.0 as int, span.1 as int),
            ),
            None => code_span_from(input.spec_bytes(), 0) is None,
        },
{
    next_block_from(input.as_bytes(), 0)
}

/// All code spans of `input` in document order, none overlapping another.
pub fn find_all_blocks(input: &str) -> (res: Vec<(usize, usize)>)
    ensures
        spans_view(res@) == code_spans_from(input.spec_bytes(), 0),
{
    let s = input.as_bytes();
    let mut res: Vec<(usize, usize)> = Vec::new();
    let mut offset: usize = 0;
    loop
        invariant
            s@ == input.spec_bytes(),
            offset <= s.len(),
            code_spans_from(s@, 0) == spans_view(res@) + code_spans_from(s@, offset as int),
        decreases s.len() - offset,
    {
        proof {
            lemma_code_span_bounds(s@, offset as int);
        }
        match next_block_from(s, offset) {
            None => {
                return res;
            },
            Some(span) => {
                let ghost before = res@;
                res.push(span);
                proof {
                    assert(spans_view(res@) =~= spans_view(before) + seq![
                        (span.0 as int, span.1 as int),
                    ]);
                }
                offset = span.1;
            },
        }
    }
}

} // verus!
