//! How text fills the columns of a terminal.

use crate::text::{
    byte_offset, char_to_byte_pos, concat_spec, from_chars, repeat_char, repeat_spec, take_chars,
    take_spec, to_chars,
};
use unicode_segmentation::UnicodeSegmentation;
use vstd::prelude::*;

verus! {

// ─── What the outside crates compute ─────────────────────────────────────────

/// Whether `s` holds nothing but printable ASCII characters.
pub open spec fn is_printable_ascii(s: Seq<char>) -> bool {
    forall|i: int| 0 <= i < s.len() ==> ' ' <= #[trigger] s[i] && s[i] <= '~'
}

/// The characters of `s`, each by itself.
pub open spec fn single_chars(s: Seq<char>) -> Seq<Seq<char>> {
    Seq::new(s.len(), |i: int| seq![s[i]])
}

/// The number of terminal columns that `termwiz` gives a text.
pub uninterp spec fn column_width_spec(s: Seq<char>) -> nat;

/// `termwiz::cell::unicode_column_width`, with the newest Unicode version: the number of columns
/// that `s` takes in a terminal. It depends on the text alone, and is one for each printable ASCII
/// character where there are no others. What the width of another text is stays unsaid.
#[verifier::external_body]
pub(crate) fn column_width(s: &str) -> (w: usize)
    ensures
        w == column_width_spec(s@),
        is_printable_ascii(s@) ==> w == s@.len(),
{
    termwiz::cell::unicode_column_width(s, None)
}

/// The extended grapheme clusters into which `unicode_segmentation` cuts a text.
pub uninterp spec fn graphemes_spec(s: Seq<char>) -> Seq<Seq<char>>;

/// `UnicodeSegmentation::graphemes`, for extended grapheme clusters: cuts `s` into its clusters.
/// None of them is empty, and one behind the other they are `s`. Where the cuts fall depends on
/// the text alone; printable ASCII characters among themselves are clusters of their own. Where
/// they fall in other texts stays unsaid.
#[verifier::external_body]
pub(crate) fn graphemes(s: &str) -> (out: Vec<String>)
    ensures
        out.deep_view() == graphemes_spec(s@),
        concat_spec(out.deep_view()) == s@,
        is_printable_ascii(s@) ==> out.deep_view() == single_chars(s@),
        forall|i: int| 0 <= i < out@.len() ==> (#[trigger] out@[i])@.len() > 0,
{
    s.graphemes(true).map(|g| g.to_string()).collect()
}

// ─── Columns and characters ──────────────────────────────────────────────────

/// The columns that the first `k` of some characters take, `widths` being the width of each.
pub open spec fn columns_of(widths: Seq<nat>, k: int) -> nat
    decreases k,
{
    if k <= 0 {
        0
    } else {
        columns_of(widths, k - 1) + widths[k - 1]
    }
}

/// The first index from `k` on in front of which the characters reach the column `col`.
pub open spec fn index_in_widths_from(widths: Seq<nat>, col: nat, k: int) -> int
    decreases widths.len() - k,
{
    if k >= widths.len() {
        widths.len() as int
    } else if columns_of(widths, k) >= col {
        k
    } else {
        index_in_widths_from(widths, col, k + 1)
    }
}

/// How many of the characters with these widths stand in front of the column `col`.
pub open spec fn index_in_widths(widths: Seq<nat>, col: nat) -> int {
    index_in_widths_from(widths, col, 0)
}

/// The widths of the characters of `s`, each measured by itself.
pub open spec fn char_widths_spec(s: Seq<char>) -> Seq<nat> {
    Seq::new(s.len(), |i: int| column_width_spec(seq![s[i]]))
}

/// How many characters of `s` stand in front of the visual column `col`.
pub open spec fn index_at_column(s: Seq<char>, col: nat) -> int {
    index_in_widths(char_widths_spec(s), col)
}

proof fn lemma_index_in_widths_from(widths: Seq<nat>, col: nat, k: int)
    requires
        0 <= k <= widths.len(),
    ensures
        k <= index_in_widths_from(widths, col, k) <= widths.len(),
        index_in_widths_from(widths, col, k) < widths.len() ==> columns_of(
            widths,
            index_in_widths_from(widths, col, k),
        ) >= col,
        forall|j: int|
            k <= j < index_in_widths_from(widths, col, k) ==> columns_of(widths, j) < col,
    decreases widths.len() - k,
{
    if k < widths.len() && columns_of(widths, k) < col {
        lemma_index_in_widths_from(widths, col, k + 1);
    }
}

/// The index for a column lies within the text, the characters in front of it stay below the
/// column, and a column further right never has a smaller index.
pub proof fn law_index_in_widths(widths: Seq<nat>, col: nat, further: nat)
    requires
        col <= further,
    ensures
        0 <= index_in_widths(widths, col) <= index_in_widths(widths, further) <= widths.len(),
        index_in_widths(widths, col) < widths.len() ==> columns_of(
            widths,
            index_in_widths(widths, col),
        ) >= col,
        forall|j: int|
            0 <= j < index_in_widths(widths, col) ==> columns_of(widths, j) < col,
{
    lemma_index_in_widths_from(widths, col, 0);
    lemma_index_in_widths_from(widths, further, 0);
    let i = index_in_widths(widths, col);
    let j = index_in_widths(widths, further);
    if j < i {
        assert(columns_of(widths, j) < col);
    }
}

/// Machine integers as numbers.
pub open spec fn as_nats(v: Seq<usize>) -> Seq<nat> {
    v.map_values(|x: usize| x as nat)
}

/// How many of the characters with these widths stand in front of the column `col`.
pub fn chars_before_column(widths: &Vec<usize>, col: usize) -> (r: usize)
    ensures
        r == index_in_widths(as_nats(widths@), col as nat),
        r <= widths.len(),
{
    let ghost all = as_nats(widths@);
    let mut current: usize = 0;
    let mut i: usize = 0;
    while i < widths.len() && current < col
        invariant
            i <= widths.len(),
            all == as_nats(widths@),
            index_in_widths(all, col as nat) == index_in_widths_from(all, col as nat, i as int),
            current == columns_of(all, i as int) || (current == usize::MAX && columns_of(
                all,
                i as int,
            ) >= usize::MAX),
        decreases widths.len() - i,
    {
        current = current.saturating_add(widths[i]);
        i += 1;
    }
    i
}

/// The widths of the characters of `s`, each measured by itself.
pub fn char_widths(s: &str) -> (out: Vec<usize>)
    ensures
        as_nats(out@) == char_widths_spec(s@),
        is_printable_ascii(s@) ==> forall|i: int| 0 <= i < out@.len() ==> #[trigger] out@[i] == 1,
{
    let mut out: Vec<usize> = Vec::new();
    for c in it: s.chars()
        invariant
            out@.len() == it.index(),
            forall|j: int|
                0 <= j < out@.len() ==> #[trigger] out@[j] == column_width_spec(seq![s@[j]]),
            is_printable_ascii(s@) ==> forall|j: int|
                0 <= j < out@.len() ==> #[trigger] out@[j] == 1,
            it.seq() == s@,
    {
        let mut one: String = String::new();
        one.push(c);
        proof {
            assert(one@ =~= seq![c]);
            assert(c == s@[it.index() as int]);
            if is_printable_ascii(s@) {
                assert(' ' <= s@[it.index() as int]);
                assert(is_printable_ascii(one@));
            }
        }
        out.push(column_width(one.as_str()));
    }
    assert(as_nats(out@) =~= char_widths_spec(s@));
    out
}

proof fn lemma_columns_of_ones(widths: Seq<nat>, k: int)
    requires
        0 <= k <= widths.len(),
        forall|i: int| 0 <= i < widths.len() ==> #[trigger] widths[i] == 1,
    ensures
        columns_of(widths, k) == k,
    decreases k,
{
    if k > 0 {
        lemma_columns_of_ones(widths, k - 1);
    }
}

/// Where every character takes one column, the columns count the characters.
pub proof fn law_index_in_ones(widths: Seq<nat>, col: nat)
    requires
        forall|i: int| 0 <= i < widths.len() ==> #[trigger] widths[i] == 1,
    ensures
        index_in_widths(widths, col) == (if col < widths.len() {
            col as int
        } else {
            widths.len() as int
        }),
{
    law_index_in_widths(widths, col, col);
    let i = index_in_widths(widths, col);
    lemma_columns_of_ones(widths, i);
    if i > 0 {
        lemma_columns_of_ones(widths, i - 1);
        assert(columns_of(widths, i - 1) < col);
    }
}

// ─── Where a text can be cut ─────────────────────────────────────────────────

/// How many characters the first `n` of some clusters hold.
pub open spec fn cluster_chars(clusters: Seq<Seq<char>>, n: int) -> nat
    decreases n,
{
    if n <= 0 {
        0
    } else {
        cluster_chars(clusters, n - 1) + clusters[n - 1].len()
    }
}

/// The places behind each cluster of `s`: how many characters stand in front of it, and how many
/// columns they take together.
pub open spec fn cuts_spec(s: Seq<char>) -> Seq<(nat, nat)> {
    let clusters = graphemes_spec(s);
    Seq::new(
        clusters.len(),
        |i: int|
            (
                cluster_chars(clusters, i + 1),
                column_width_spec(s.take(cluster_chars(clusters, i + 1) as int)),
            ),
    )
}

/// The places behind each of `n` characters that take one column each.
pub open spec fn cuts_everywhere(n: nat) -> Seq<(nat, nat)> {
    Seq::new(n, |i: int| ((i + 1) as nat, (i + 1) as nat))
}

/// Pairs of machine integers as numbers.
pub open spec fn as_nat_pairs(v: Seq<(usize, usize)>) -> Seq<(nat, nat)> {
    v.map_values(|x: (usize, usize)| (x.0 as nat, x.1 as nat))
}

proof fn lemma_cluster_chars(clusters: Seq<Seq<char>>, n: int)
    requires
        0 <= n <= clusters.len(),
    ensures
        cluster_chars(clusters, n) == concat_spec(clusters.take(n)).len(),
        cluster_chars(clusters, n) <= cluster_chars(clusters, clusters.len() as int),
    decreases clusters.len(), n,
{
    if n > 0 {
        assert(clusters.take(n).drop_last() =~= clusters.take(n - 1));
        lemma_cluster_chars(clusters, n - 1);
    }
    lemma_cluster_chars_grow(clusters, n, clusters.len() as int);
}

proof fn lemma_cluster_chars_grow(clusters: Seq<Seq<char>>, i: int, j: int)
    requires
        0 <= i <= j <= clusters.len(),
    ensures
        cluster_chars(clusters, i) <= cluster_chars(clusters, j),
    decreases j - i,
{
    if i < j {
        lemma_cluster_chars_grow(clusters, i, j - 1);
    }
}

/// The places behind each cluster of `s`.
pub fn cluster_cuts(s: &str) -> (out: Vec<(usize, usize)>)
    ensures
        as_nat_pairs(out@) == cuts_spec(s@),
        forall|i: int| 0 <= i < out@.len() ==> (#[trigger] out@[i]).0 <= s@.len(),
        is_printable_ascii(s@) ==> cuts_spec(s@) == cuts_everywhere(s@.len()),
{
    let clusters: Vec<String> = graphemes(s);
    let ghost all = clusters.deep_view();
    let chars: Vec<char> = to_chars(s);
    let mut out: Vec<(usize, usize)> = Vec::new();
    let mut k: usize = 0;
    let mut i: usize = 0;
    proof {
        assert(all.take(all.len() as int) =~= all);
        lemma_cluster_chars(all, all.len() as int);
    }
    while i < clusters.len()
        invariant
            i <= clusters.len(),
            all == clusters.deep_view(),
            all == graphemes_spec(s@),
            cluster_chars(all, all.len() as int) == s@.len(),
            chars@ == s@,
            k == cluster_chars(all, i as int),
            k <= chars.len(),
            out@.len() == i,
            forall|j: int|
                0 <= j < i ==> (#[trigger] out@[j]).0 <= s@.len() && (
                out@[j].0 as nat,
                out@[j].1 as nat,
                ) == cuts_spec(s@)[j],
            is_printable_ascii(s@) ==> all == single_chars(s@) && k == i && forall|j: int|
                0 <= j < i ==> #[trigger] out@[j] == ((j + 1) as usize, (j + 1) as usize),
        decreases clusters.len() - i,
    {
        proof {
            assert(all[i as int] == clusters@[i as int]@);
            assert(all.len() == clusters@.len());
            lemma_cluster_chars(all, i + 1);
        }
        k += clusters[i].as_str().unicode_len();
        let front: String = from_chars(&chars, 0, k);
        proof {
            assert(chars@.subrange(0, k as int) =~= s@.take(k as int));
            if is_printable_ascii(s@) {
                assert forall|j: int| 0 <= j < front@.len() implies ' ' <= #[trigger] front@[j]
                    && front@[j] <= '~' by {
                    assert(front@[j] == s@[j]);
                }
            }
        }
        out.push((k, column_width(front.as_str())));
        i += 1;
    }
    proof {
        assert(as_nat_pairs(out@) =~= cuts_spec(s@));
        if is_printable_ascii(s@) {
            assert(cuts_spec(s@) =~= cuts_everywhere(s@.len()));
        }
    }
    out
}

/// The last of `cuts` in front of which at most `room` columns are taken, or the start of the text
/// where there is none.
pub open spec fn last_fitting_cut(cuts: Seq<(nat, nat)>, room: nat) -> (nat, nat)
    decreases cuts.len(),
{
    if cuts.len() == 0 {
        (0, 0)
    } else if cuts.last().1 <= room {
        cuts.last()
    } else {
        last_fitting_cut(cuts.drop_last(), room)
    }
}

/// The cut that fits takes no more columns than there are; it is the start of the text or one of
/// the cuts, and none behind it fits.
pub proof fn law_last_fitting_cut(cuts: Seq<(nat, nat)>, room: nat)
    ensures
        last_fitting_cut(cuts, room).1 <= room,
        ({
            ||| last_fitting_cut(cuts, room) == (0nat, 0nat) && forall|j: int|
                0 <= j < cuts.len() ==> (#[trigger] cuts[j]).1 > room
            ||| exists|i: int|
                0 <= i < cuts.len() && last_fitting_cut(cuts, room) == #[trigger] cuts[i] && forall|
                    j: int,
                | i < j < cuts.len() ==> (#[trigger] cuts[j]).1 > room
        }),
    decreases cuts.len(),
{
    if cuts.len() > 0 {
        let n = cuts.len() - 1;
        if cuts.last().1 <= room {
            assert(last_fitting_cut(cuts, room) == cuts[n]);
        } else {
            let front = cuts.drop_last();
            law_last_fitting_cut(front, room);
            if exists|i: int|
                0 <= i < front.len() && last_fitting_cut(front, room) == #[trigger] front[i]
                    && forall|j: int| i < j < front.len() ==> (#[trigger] front[j]).1 > room {
                let i = choose|i: int|
                    0 <= i < front.len() && last_fitting_cut(front, room) == #[trigger] front[i]
                        && forall|j: int| i < j < front.len() ==> (#[trigger] front[j]).1 > room;
                assert(last_fitting_cut(cuts, room) == cuts[i]);
                assert forall|j: int| i < j < cuts.len() implies (#[trigger] cuts[j]).1 > room by {
                    if j < n {
                        assert(front[j] == cuts[j]);
                    }
                }
            } else {
                assert forall|j: int| 0 <= j < cuts.len() implies (#[trigger] cuts[j]).1 > room by {
                    if j < n {
                        assert(front[j] == cuts[j]);
                    }
                }
            }
        }
    }
}

/// Where every character takes one column, as many fit as there are columns.
pub proof fn law_cut_everywhere(n: nat, room: nat)
    ensures
        last_fitting_cut(cuts_everywhere(n), room) == (if n <= room {
            (n, n)
        } else {
            (room, room)
        }),
    decreases n,
{
    if n > 0 {
        assert(cuts_everywhere(n).drop_last() =~= cuts_everywhere((n - 1) as nat));
        law_cut_everywhere((n - 1) as nat, room);
    }
}

/// The last of `cuts` in front of which at most `room` columns are taken.
pub fn fitting_cut(cuts: &Vec<(usize, usize)>, room: usize) -> (r: (usize, usize))
    ensures
        (r.0 as nat, r.1 as nat) == last_fitting_cut(as_nat_pairs(cuts@), room as nat),
        r == (0usize, 0usize) || cuts@.contains(r),
        r.1 <= room,
{
    let ghost all = as_nat_pairs(cuts@);
    let mut i: usize = cuts.len();
    assert(all.take(all.len() as int) =~= all);
    while i > 0
        invariant
            i <= cuts.len(),
            all == as_nat_pairs(cuts@),
            last_fitting_cut(all, room as nat) == last_fitting_cut(all.take(i as int), room as nat),
        decreases i,
    {
        i -= 1;
        assert(all.take(i + 1).drop_last() =~= all.take(i as int));
        if cuts[i].1 <= room {
            assert(cuts@.contains(cuts@[i as int]));
            return cuts[i];
        }
    }
    (0, 0)
}

/// Find the byte offset in `s` that corresponds to the visual column `col`, wide characters
/// counting for two. It is the length of `s` where `col` exceeds the visual width.
pub fn byte_pos_at_visual_col(s: &str, col: usize) -> (r: usize)
    ensures
        r == byte_offset(s@, index_at_column(s@, col as nat)),
        is_printable_ascii(s@) ==> index_at_column(s@, col as nat) == (if col < s@.len() {
            col as int
        } else {
            s@.len() as int
        }),
{
    let widths: Vec<usize> = char_widths(s);
    let i: usize = chars_before_column(&widths, col);
    proof {
        assert(as_nats(widths@).len() == s@.len());
        if is_printable_ascii(s@) {
            law_index_in_ones(as_nats(widths@), col as nat);
        }
    }
    char_to_byte_pos(s, i)
}

/// `s`, of `cur` columns, with spaces behind it up to `target` columns.
pub open spec fn padded_from(s: Seq<char>, cur: nat, target: nat) -> Seq<char> {
    if cur >= target {
        s
    } else {
        s + repeat_spec(' ', (target - cur) as nat)
    }
}

/// `s` with spaces behind it up to `target` columns, where it takes fewer.
pub open spec fn padded_spec(s: Seq<char>, target: nat) -> Seq<char> {
    padded_from(s, column_width_spec(s), target)
}

/// Pad `s`, which takes `cur` columns, on the right with spaces up to `target_cols` columns.
pub fn pad_from(s: &str, cur: usize, target_cols: usize) -> (out: String)
    ensures
        out@ == padded_from(s@, cur as nat, target_cols as nat),
{
    if cur >= target_cols {
        return s.to_string();
    }
    let mut out: String = s.to_string();
    out.append(repeat_char(' ', target_cols - cur).as_str());
    out
}

/// Pad `s` on the right with spaces until its visual column width reaches `target_cols`. Visual
/// columns count, not characters.
pub fn pad_to_visual_width(s: &str, target_cols: usize) -> (out: String)
    ensures
        out@ == padded_spec(s@, target_cols as nat),
        is_printable_ascii(s@) ==> out@ == padded_from(s@, s@.len(), target_cols as nat),
{
    pad_from(s, column_width(s), target_cols)
}

/// At most the first `max_cols` characters of `s`.
pub fn truncate(s: &str, max_cols: usize) -> (out: String)
    ensures
        out@ == take_spec(s@, max_cols as nat),
{
    take_chars(s, max_cols)
}

} // verus!
