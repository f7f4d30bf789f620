//! The summary of a directory: its entries in order, the files worth a preview, the previews.

use crate::text::{
    is_blank, is_white_space_spec, law_trim_takes_white_space, lower, occurs_at, starts_with,
    take_spec, to_ascii_lowercase, to_chars, trim, trim_spec,
};
use vstd::prelude::*;
use vstd::utf8::{decode_utf8, valid_utf8};

verus! {

// ─── The order of names ──────────────────────────────────────────────────────

/// Whether `a` stands before or at `b` in the order of code points.
pub open spec fn lex_le(a: Seq<char>, b: Seq<char>) -> bool
    decreases a.len(),
{
    if a.len() == 0 {
        true
    } else if b.len() == 0 {
        false
    } else if a[0] != b[0] {
        a[0] < b[0]
    } else {
        lex_le(a.drop_first(), b.drop_first())
    }
}

proof fn lemma_lex_total(a: Seq<char>, b: Seq<char>)
    ensures
        lex_le(a, b) || lex_le(b, a),
        lex_le(a, b) && lex_le(b, a) ==> a == b,
    decreases a.len(),
{
    if a.len() == 0 && b.len() == 0 {
        assert(a =~= b);
    } else if a.len() > 0 && b.len() > 0 && a[0] == b[0] {
        lemma_lex_total(a.drop_first(), b.drop_first());
        if a.drop_first() == b.drop_first() {
            assert(a =~= seq![a[0]] + a.drop_first());
            assert(b =~= seq![b[0]] + b.drop_first());
        }
    }
}

proof fn lemma_lex_transitive(a: Seq<char>, b: Seq<char>, c: Seq<char>)
    requires
        lex_le(a, b),
        lex_le(b, c),
    ensures
        lex_le(a, c),
    decreases a.len(),
{
    if a.len() > 0 && b.len() > 0 && c.len() > 0 && a[0] == b[0] && b[0] == c[0] {
        lemma_lex_transitive(a.drop_first(), b.drop_first(), c.drop_first());
    }
}

/// Whether `a` stands before or at `b` in the order of code points.
fn in_order(a: &str, b: &str) -> (r: bool)
    ensures
        r == lex_le(a@, b@),
{
    let x: Vec<char> = to_chars(a);
    let y: Vec<char> = to_chars(b);
    let mut i: usize = 0;
    assert(a@.skip(0) =~= a@);
    assert(b@.skip(0) =~= b@);
    while i < x.len() && i < y.len()
        invariant
            i <= x.len(),
            i <= y.len(),
            x@ == a@,
            y@ == b@,
            lex_le(a@, b@) == lex_le(a@.skip(i as int), b@.skip(i as int)),
        decreases x.len() - i,
    {
        assert(a@.skip(i as int).drop_first() =~= a@.skip(i + 1));
        assert(b@.skip(i as int).drop_first() =~= b@.skip(i + 1));
        if x[i] != y[i] {
            return x[i] < y[i];
        }
        i += 1;
    }
    i == x.len()
}

// ─── The entries of a directory ──────────────────────────────────────────────

/// An entry of a directory.
pub struct DirEntryInfo {
    pub name: String,
    pub is_dir: bool,
}

/// What a [`DirEntryInfo`] holds.
#[verifier::ext_equal]
pub struct DirEntryView {
    pub name: Seq<char>,
    pub is_dir: bool,
}

impl DeepView for DirEntryInfo {
    type V = DirEntryView;

    open spec fn deep_view(&self) -> DirEntryView {
        DirEntryView { name: self.name@, is_dir: self.is_dir }
    }
}

/// The name under which an entry is listed: a directory has a slash behind it.
pub open spec fn listed_name(entry: DirEntryView) -> Seq<char> {
    if entry.is_dir {
        entry.name.push('/')
    } else {
        entry.name
    }
}

/// The names under which entries are listed, in their order.
pub open spec fn listed_names(entries: Seq<DirEntryView>) -> Seq<Seq<char>> {
    Seq::new(entries.len(), |i: int| listed_name(entries[i]))
}

/// Whether the names are in order, capital letters counting as small ones.
pub open spec fn in_name_order(names: Seq<Seq<char>>) -> bool {
    forall|i: int, j: int|
        0 <= i <= j < names.len() ==> lex_le(lower(#[trigger] names[i]), lower(#[trigger] names[j]))
}

/// The names that differ from `key` at most in the case of letters.
pub open spec fn same_key(names: Seq<Seq<char>>, key: Seq<char>) -> Seq<Seq<char>> {
    names.filter(|n: Seq<char>| lower(n) == key)
}

/// Whether `sorted` is `names` in order, with the order among names that differ only in the case
/// of letters kept.
pub open spec fn is_stable_sort(sorted: Seq<Seq<char>>, names: Seq<Seq<char>>) -> bool {
    &&& sorted.len() == names.len()
    &&& in_name_order(sorted)
    &&& forall|key: Seq<char>| #[trigger] same_key(sorted, key) == same_key(names, key)
}

proof fn lemma_same_key_none(names: Seq<Seq<char>>, key: Seq<char>)
    requires
        forall|i: int| 0 <= i < names.len() ==> lower(#[trigger] names[i]) != key,
    ensures
        same_key(names, key) == Seq::<Seq<char>>::empty(),
    decreases names.len(),
{
    reveal(Seq::filter);
    if names.len() > 0 {
        assert(lower(names[names.len() - 1]) != key);
        assert forall|i: int| 0 <= i < names.drop_last().len() implies lower(
            #[trigger] names.drop_last()[i],
        ) != key by {
            assert(names.drop_last()[i] == names[i]);
        }
        lemma_same_key_none(names.drop_last(), key);
    }
}

/// Inserting a name behind all that are not greater keeps the order of equal names.
proof fn lemma_insert(sorted: Seq<Seq<char>>, names: Seq<Seq<char>>, name: Seq<char>, at: int)
    requires
        is_stable_sort(sorted, names),
        0 <= at <= sorted.len(),
        forall|i: int| 0 <= i < at ==> lex_le(lower(#[trigger] sorted[i]), lower(name)),
        forall|i: int| at <= i < sorted.len() ==> !lex_le(lower(#[trigger] sorted[i]), lower(name)),
    ensures
        is_stable_sort(sorted.insert(at, name), names.push(name)),
{
    let result = sorted.insert(at, name);
    let front = sorted.take(at);
    let back = sorted.skip(at);
    assert(result =~= front + seq![name] + back);
    assert(sorted =~= front + back);
    assert forall|i: int, j: int| 0 <= i <= j < result.len() implies lex_le(
        lower(#[trigger] result[i]),
        lower(#[trigger] result[j]),
    ) by {
        lemma_lex_total(lower(name), lower(name));
        if i < at && j < at {
            assert(result[i] == sorted[i] && result[j] == sorted[j]);
        } else if i < at && j == at {
            assert(result[i] == sorted[i]);
        } else if i < at {
            assert(result[i] == sorted[i] && result[j] == sorted[j - 1]);
        } else if i == at && j == at {
        } else if i == at {
            assert(result[j] == sorted[j - 1]);
            lemma_lex_total(lower(name), lower(sorted[j - 1]));
        } else {
            assert(result[i] == sorted[i - 1] && result[j] == sorted[j - 1]);
        }
    }
    assert forall|key: Seq<char>| #[trigger] same_key(result, key) == same_key(
        names.push(name),
        key,
    ) by {
        let pred = |n: Seq<char>| lower(n) == key;
        Seq::filter_distributes_over_add(front, back, pred);
        Seq::filter_distributes_over_add(front + seq![name], back, pred);
        Seq::filter_distributes_over_add(front, seq![name], pred);
        assert(same_key(sorted, key) == same_key(names, key));
        names.lemma_filter_push(name, pred);
        let one = seq![name].filter(pred);
        assert(seq![name] =~= Seq::<Seq<char>>::empty().push(name));
        Seq::<Seq<char>>::empty().lemma_filter_push(name, pred);
        assert(Seq::<Seq<char>>::empty().filter(pred) =~= Seq::empty()) by {
            reveal(Seq::filter);
        }
        if lower(name) == key {
            assert forall|i: int| 0 <= i < back.len() implies lower(#[trigger] back[i]) != key by {
                assert(back[i] == sorted[at + i]);
                lemma_lex_total(lower(name), lower(name));
            }
            lemma_same_key_none(back, key);
            assert(one =~= seq![name]);
            assert(same_key(result, key) =~= same_key(names.push(name), key));
        } else {
            assert(one =~= Seq::empty());
            assert(same_key(result, key) =~= same_key(names.push(name), key));
        }
    }
}

/// `sorted` with `name` behind all that are not greater.
pub open spec fn insert_name(sorted: Seq<Seq<char>>, name: Seq<char>) -> Seq<Seq<char>>
    decreases sorted.len(),
{
    if sorted.len() == 0 || lex_le(lower(sorted.last()), lower(name)) {
        sorted.push(name)
    } else {
        insert_name(sorted.drop_last(), name).push(sorted.last())
    }
}

/// `names` in order.
pub open spec fn sorted_names(names: Seq<Seq<char>>) -> Seq<Seq<char>>
    decreases names.len(),
{
    if names.len() == 0 {
        Seq::empty()
    } else {
        insert_name(sorted_names(names.drop_last()), names.last())
    }
}

proof fn lemma_insert_name(sorted: Seq<Seq<char>>, name: Seq<char>, at: int)
    requires
        0 <= at <= sorted.len(),
        at > 0 ==> lex_le(lower(sorted[at - 1]), lower(name)),
        forall|i: int| at <= i < sorted.len() ==> !lex_le(lower(#[trigger] sorted[i]), lower(name)),
    ensures
        insert_name(sorted, name) == sorted.insert(at, name),
    decreases sorted.len(),
{
    if at == sorted.len() {
        assert(sorted.insert(at, name) =~= sorted.push(name));
    } else {
        let shorter = sorted.drop_last();
        assert(!lex_le(lower(sorted[sorted.len() - 1]), lower(name)));
        assert forall|i: int| at <= i < shorter.len() implies !lex_le(
            lower(#[trigger] shorter[i]),
            lower(name),
        ) by {
            assert(shorter[i] == sorted[i]);
        }
        lemma_insert_name(shorter, name, at);
        assert(sorted.insert(at, name) =~= shorter.insert(at, name).push(sorted.last()));
    }
}

proof fn lemma_insert_place(sorted: Seq<Seq<char>>, name: Seq<char>) -> (at: int)
    requires
        in_name_order(sorted),
    ensures
        0 <= at <= sorted.len(),
        forall|i: int| 0 <= i < at ==> lex_le(lower(#[trigger] sorted[i]), lower(name)),
        forall|i: int| at <= i < sorted.len() ==> !lex_le(lower(#[trigger] sorted[i]), lower(name)),
    decreases sorted.len(),
{
    if sorted.len() == 0 {
        0
    } else if lex_le(lower(sorted.last()), lower(name)) {
        assert forall|i: int| 0 <= i < sorted.len() implies lex_le(
            lower(#[trigger] sorted[i]),
            lower(name),
        ) by {
            assert(lex_le(lower(sorted[i]), lower(sorted[sorted.len() - 1])));
            lemma_lex_transitive(lower(sorted[i]), lower(sorted.last()), lower(name));
        }
        sorted.len() as int
    } else {
        let shorter = sorted.drop_last();
        assert forall|i: int, j: int| 0 <= i <= j < shorter.len() implies lex_le(
            lower(#[trigger] shorter[i]),
            lower(#[trigger] shorter[j]),
        ) by {
            assert(shorter[i] == sorted[i] && shorter[j] == sorted[j]);
        }
        let at = lemma_insert_place(shorter, name);
        assert forall|i: int| 0 <= i < at implies lex_le(
            lower(#[trigger] sorted[i]),
            lower(name),
        ) by {
            assert(shorter[i] == sorted[i]);
        }
        assert forall|i: int| at <= i < sorted.len() implies !lex_le(
            lower(#[trigger] sorted[i]),
            lower(name),
        ) by {
            if i < shorter.len() {
                assert(shorter[i] == sorted[i]);
            }
        }
        at
    }
}

/// Sorting is a stable sort without regard to the case of letters: it loses and adds no name, and
/// keeps the order of names that differ in case alone.
pub proof fn law_sorted_names(names: Seq<Seq<char>>)
    ensures
        is_stable_sort(sorted_names(names), names),
    decreases names.len(),
{
    if names.len() > 0 {
        let shorter = names.drop_last();
        law_sorted_names(shorter);
        let sorted = sorted_names(shorter);
        let at = lemma_insert_place(sorted, names.last());
        lemma_insert_name(sorted, names.last(), at);
        lemma_insert(sorted, shorter, names.last(), at);
        assert(shorter.push(names.last()) =~= names);
    } else {
        assert(names =~= Seq::empty());
    }
}

/// The name under which an entry is listed.
fn entry_name(entry: &DirEntryInfo) -> (r: String)
    ensures
        r@ == listed_name(entry.deep_view()),
{
    let mut name: String = entry.name.clone();
    if entry.is_dir {
        name.push('/');
    }
    name
}

/// The listing of a directory: directories with a slash behind their name, all in order without
/// regard to case.
pub fn list_directory_entries(entries: &Vec<DirEntryInfo>) -> (out: Vec<String>)
    ensures
        out.deep_view() == sorted_names(listed_names(entries.deep_view())),
{
    let mut out: Vec<String> = Vec::new();
    let mut i: usize = 0;
    let ghost all = listed_names(entries.deep_view());
    assert(out.deep_view() =~= Seq::empty());
    assert(all.take(0) =~= Seq::empty());
    while i < entries.len()
        invariant
            i <= entries.len(),
            all == listed_names(entries.deep_view()),
            out.deep_view() == sorted_names(all.take(i as int)),
        decreases entries.len() - i,
    {
        let name: String = entry_name(&entries[i]);
        let key: String = to_ascii_lowercase(name.as_str());
        let mut at: usize = out.len();
        let ghost sorted = out.deep_view();
        assert(sorted.len() == out@.len());
        while at > 0 && !in_order(to_ascii_lowercase(out[at - 1].as_str()).as_str(), key.as_str())
            invariant
                at <= out.len(),
                sorted == out.deep_view(),
                sorted.len() == out@.len(),
                key@ == lower(name@),
                forall|k: int|
                    at <= k < sorted.len() ==> !lex_le(lower(#[trigger] sorted[k]), lower(name@)),
            decreases at,
        {
            assert(sorted[at - 1] == out@[at - 1]@);
            at -= 1;
        }
        proof {
            if at > 0 {
                assert(sorted[at - 1] == out@[at - 1]@);
            }
            lemma_insert_name(sorted, name@, at as int);
            assert(all.take(i + 1).drop_last() =~= all.take(i as int));
        }
        let ghost given = name@;
        out.insert(at, name);
        assert(out.deep_view() =~= sorted.insert(at as int, given));
        i += 1;
    }
    assert(all.take(all.len() as int) =~= all);
    out
}

// ─── Files worth a preview ───────────────────────────────────────────────────

/// A file that is worth a preview.
#[derive(Clone, Copy, PartialEq, Eq, Debug, Structural)]
pub enum OverviewFile {
    /// The file of the directory with this index.
    Listed(usize),
    /// The candidate with this index.
    Candidate(usize),
}

/// How many candidates there are.
pub const OVERVIEW_CANDIDATES: usize = 6;

/// The names of the files that tell what a project is, the most telling first.
pub open spec fn candidate_spec(i: int) -> Seq<char> {
    if i == 0 {
        "Cargo.toml"@
    } else if i == 1 {
        "package.json"@
    } else if i == 2 {
        "pyproject.toml"@
    } else if i == 3 {
        "go.mod"@
    } else if i == 4 {
        "Makefile"@
    } else {
        "justfile"@
    }
}

/// The name of the candidate with the index `i`.
pub fn overview_candidate(i: usize) -> (r: &'static str)
    requires
        i < OVERVIEW_CANDIDATES,
    ensures
        r@ == candidate_spec(i as int),
{
    if i == 0 {
        "Cargo.toml"
    } else if i == 1 {
        "package.json"
    } else if i == 2 {
        "pyproject.toml"
    } else if i == 3 {
        "go.mod"
    } else if i == 4 {
        "Makefile"
    } else {
        "justfile"
    }
}

/// Whether a file name is that of a readme.
pub open spec fn is_readme(name: Seq<char>) -> bool {
    occurs_at(lower(name), "readme"@, 0)
}

/// Whether the file with the index `i` is the readme to show: the first in name order, and of
/// names that differ only in case the first one given.
pub open spec fn is_first_readme(files: Seq<Seq<char>>, i: int) -> bool {
    &&& 0 <= i < files.len()
    &&& is_readme(files[i])
    &&& forall|j: int|
        0 <= j < files.len() && is_readme(#[trigger] files[j]) ==> lex_le(
            lower(files[i]),
            lower(files[j]),
        ) && (j < i ==> lower(files[j]) != lower(files[i]))
}

/// Whether `i` is the first index at which `present` is true.
pub open spec fn is_first_true(present: Seq<bool>, i: int) -> bool {
    0 <= i < present.len() && present[i] && forall|j: int| 0 <= j < i ==> !present[j]
}

fn first_readme(files: &Vec<String>) -> (r: Option<usize>)
    ensures
        match r {
            Some(i) => is_first_readme(files.deep_view(), i as int),
            None => forall|i: int|
                0 <= i < files.deep_view().len() ==> !is_readme(#[trigger] files.deep_view()[i]),
        },
{
    let ghost all = files.deep_view();
    let mut best: Option<usize> = None;
    let mut i: usize = 0;
    while i < files.len()
        invariant
            i <= files.len(),
            all == files.deep_view(),
            match best {
                Some(b) => b < i && is_first_readme(all.take(i as int), b as int),
                None => forall|j: int| 0 <= j < i ==> !is_readme(#[trigger] all[j]),
            },
        decreases files.len() - i,
    {
        let key: String = to_ascii_lowercase(files[i].as_str());
        assert(all[i as int] == files@[i as int]@);
        let ghost longer = all.take(i + 1);
        let ghost before = best;
        if starts_with(key.as_str(), "readme") {
            let better: bool = match best {
                Some(b) => !in_order(to_ascii_lowercase(files[b].as_str()).as_str(), key.as_str()),
                None => true,
            };
            if better {
                best = Some(i);
            }
        }
        proof {
            if before is Some {
                let b = before.unwrap() as int;
                assert(all[b] == files@[b]@);
                assert(all.take(i as int)[b] == all[b]);
                lemma_lex_total(lower(all[b]), lower(all[i as int]));
                lemma_lex_total(lower(all[i as int]), lower(all[i as int]));
                assert forall|j: int| 0 <= j < i && is_readme(#[trigger] all[j]) implies lex_le(
                    lower(all[b]),
                    lower(all[j]),
                ) && (j < b ==> lower(all[j]) != lower(all[b])) by {
                    assert(all.take(i as int)[j] == all[j]);
                }
                if best == Some(i) {
                    assert forall|j: int| 0 <= j < i && is_readme(#[trigger] all[j]) implies lex_le(
                        lower(all[i as int]),
                        lower(all[j]),
                    ) && lower(all[j]) != lower(all[i as int]) by {
                        lemma_lex_transitive(lower(all[i as int]), lower(all[b]), lower(all[j]));
                    }
                }
            } else {
                lemma_lex_total(lower(all[i as int]), lower(all[i as int]));
            }
            if best is Some {
                let b = best.unwrap() as int;
                assert(longer[b] == all[b]);
                assert forall|j: int|
                    0 <= j < longer.len() && is_readme(#[trigger] longer[j]) implies lex_le(
                    lower(longer[b]),
                    lower(longer[j]),
                ) && (j < b ==> lower(longer[j]) != lower(longer[b])) by {
                    assert(longer[j] == all[j]);
                }
                assert(is_first_readme(longer, b));
            } else {
                assert(!is_readme(all[i as int]));
            }
        }
        i += 1;
    }
    assert(all.take(all.len() as int) =~= all);
    best
}

/// Pick the files worth a preview: the readme, then the first candidate that is there.
/// `files` are the names of the regular files of the directory, and `present` says for each
/// candidate whether it is a regular file.
pub fn pick_overview_files(files: &Vec<String>, present: &Vec<bool>) -> (out: Vec<OverviewFile>)
    ensures
        ({
            let has_readme = exists|i: int|
                0 <= i < files.deep_view().len() && is_readme(#[trigger] files.deep_view()[i]);
            let has_candidate = exists|i: int| 0 <= i < present@.len() && #[trigger] present@[i];
            &&& out@.len() == (if has_readme { 1int } else { 0int }) + (if has_candidate {
                1int
            } else {
                0int
            })
            &&& has_readme ==> (out@[0] matches OverviewFile::Listed(i) && is_first_readme(
                files.deep_view(),
                i as int,
            ))
            &&& has_candidate ==> (out@.last() matches OverviewFile::Candidate(i) && is_first_true(
                present@,
                i as int,
            ))
        }),
{
    let mut out: Vec<OverviewFile> = Vec::new();
    match first_readme(files) {
        Some(i) => {
            assert(is_readme(files.deep_view()[i as int]));
            out.push(OverviewFile::Listed(i));
        },
        None => {},
    }
    let ghost shown = out@;
    let mut i: usize = 0;
    while i < present.len()
        invariant
            i <= present.len(),
            out@ == shown,
            forall|j: int| 0 <= j < i ==> !present@[j],
            shown.len() <= 1,
            ({
                let has_readme = exists|k: int|
                    0 <= k < files.deep_view().len() && is_readme(#[trigger] files.deep_view()[k]);
                &&& shown.len() == (if has_readme { 1int } else { 0int })
                &&& has_readme ==> (shown[0] matches OverviewFile::Listed(k) && is_first_readme(
                    files.deep_view(),
                    k as int,
                ))
            }),
        decreases present.len() - i,
    {
        if present[i] {
            assert(present@[i as int]);
            out.push(OverviewFile::Candidate(i));
            return out;
        }
        i += 1;
    }
    out
}

// ─── Texts of bounded length ─────────────────────────────────────────────────

/// `s`, cut behind `max` characters with a note where it is longer.
pub open spec fn bounded_spec(s: Seq<char>, max: nat) -> Seq<char> {
    if s.len() > max {
        s.take(max as int) + "\n[truncated]"@
    } else {
        s
    }
}

fn bounded_text(s: &str, max: usize) -> (out: String)
    ensures
        out@ == bounded_spec(s@, max as nat),
{
    if s.unicode_len() > max {
        let mut out: String = crate::text::take_chars(s, max);
        out.append("\n[truncated]");
        out
    } else {
        s.to_string()
    }
}

/// The most characters that an attachment holds.
pub const MAX_ATTACHMENT_CHARS: usize = 8192;

/// The most characters that a file preview holds.
pub const MAX_PREVIEW_CHARS: usize = 1200;

/// `text`, cut to the length of an attachment.
pub fn truncate_attachment_text(text: &str) -> (out: String)
    ensures
        out@ == bounded_spec(text@, MAX_ATTACHMENT_CHARS as nat),
{
    bounded_text(text, MAX_ATTACHMENT_CHARS)
}

/// A text of bounded length is at most that long and the note, and one that fits is unchanged.
pub proof fn law_bounded_text(s: Seq<char>, max: nat)
    ensures
        bounded_spec(s, max).len() <= max + 12,
        s.len() <= max ==> bounded_spec(s, max) == s,
        take_spec(bounded_spec(s, max), max) == take_spec(s, max),
{
    reveal_strlit("\n[truncated]");
    if s.len() > max {
        assert(take_spec(bounded_spec(s, max), max) =~= s.take(max as int));
    }
}

/// The text that `String::from_utf8_lossy` makes of some bytes.
pub uninterp spec fn lossy_text_spec(bytes: Seq<u8>) -> Seq<char>;

/// `String::from_utf8_lossy`: the bytes as text, with what is no UTF-8 replaced. It depends on
/// the bytes alone, and is the text that they encode where they are UTF-8. What stands for other
/// bytes stays unsaid.
#[verifier::external_body]
fn lossy_text(bytes: &[u8]) -> (r: String)
    ensures
        r@ == lossy_text_spec(bytes@),
        valid_utf8(bytes@) ==> r@ == decode_utf8(bytes@),
{
    String::from_utf8_lossy(bytes).into_owned()
}

/// The preview of a file: its first characters, or a note in place of what is no text. There are
/// no bytes for a file that cannot be read.
pub open spec fn preview_spec(bytes: Option<Seq<u8>>) -> Seq<char> {
    match bytes {
        None => "[unreadable file omitted]"@,
        Some(b) => if b.contains(0u8) {
            "[binary file omitted]"@
        } else {
            bounded_spec(lossy_text_spec(b), MAX_PREVIEW_CHARS as nat)
        },
    }
}

/// The preview of a text file.
pub fn preview_text(text: &str) -> (out: String)
    ensures
        out@ == bounded_spec(text@, MAX_PREVIEW_CHARS as nat),
{
    bounded_text(text, MAX_PREVIEW_CHARS)
}

fn contains_zero(bytes: &Vec<u8>) -> (r: bool)
    ensures
        r == bytes@.contains(0u8),
{
    let mut i: usize = 0;
    while i < bytes.len()
        invariant
            i <= bytes.len(),
            forall|j: int| 0 <= j < i ==> bytes@[j] != 0u8,
        decreases bytes.len() - i,
    {
        if bytes[i] == 0 {
            assert(bytes@[i as int] == 0u8);
            return true;
        }
        i += 1;
    }
    false
}

/// The preview of a file with these bytes; there are none for a file that cannot be read.
pub fn read_file_preview(bytes: &Option<Vec<u8>>) -> (out: String)
    ensures
        out@ == preview_spec(
            match bytes {
                Some(b) => Some(b@),
                None => None,
            },
        ),
        bytes matches Some(b) ==> (valid_utf8(b@) && !b@.contains(0u8) ==> out@ == bounded_spec(
            decode_utf8(b@),
            MAX_PREVIEW_CHARS as nat,
        )),
{
    match bytes {
        None => "[unreadable file omitted]".to_string(),
        Some(b) => {
            if contains_zero(b) {
                return "[binary file omitted]".to_string();
            }
            let text: String = lossy_text(b.as_slice());
            preview_text(text.as_str())
        },
    }
}

/// The text of `git status`, trimmed and of bounded length; there is none where it is empty.
pub open spec fn status_spec(text: Seq<char>) -> Option<Seq<char>> {
    if trim_spec(text).len() == 0 {
        None
    } else {
        Some(bounded_spec(trim_spec(text), MAX_ATTACHMENT_CHARS as nat))
    }
}

/// What is shown of the output of `git status`.
pub fn git_status_text(text: &str) -> (r: Option<String>)
    ensures
        r.deep_view() == status_spec(text@),
{
    let trimmed: &str = trim(text);
    if trimmed.is_empty() {
        None
    } else {
        Some(truncate_attachment_text(trimmed))
    }
}

/// What is shown of a run of `git status`: nothing where it failed, and else its output.
pub fn git_status_summary(success: bool, stdout: &Vec<u8>) -> (r: Option<String>)
    ensures
        r.deep_view() == (if success {
            status_spec(lossy_text_spec(stdout@))
        } else {
            None
        }),
        success && valid_utf8(stdout@) ==> r.deep_view() == status_spec(decode_utf8(stdout@)),
{
    if !success {
        return None;
    }
    let text: String = lossy_text(stdout.as_slice());
    git_status_text(text.as_str())
}

/// Names are ordered by the first character in which they differ; a name that ends there comes
/// first.
pub proof fn law_order_of_names(front: Seq<char>, x: char, a: Seq<char>, y: char, b: Seq<char>)
    ensures
        lex_le(front, front + b),
        b.len() > 0 ==> !lex_le(front + b, front),
        x < y ==> lex_le(front + (seq![x] + a), front + (seq![y] + b)) && !lex_le(
            front + (seq![y] + b),
            front + (seq![x] + a),
        ),
    decreases front.len(),
{
    let one = front + (seq![x] + a);
    let other = front + (seq![y] + b);
    if front.len() == 0 {
        assert(one[0] == x && other[0] == y);
        assert(front + b =~= b);
    } else {
        law_order_of_names(front.drop_first(), x, a, y, b);
        assert(one.drop_first() =~= front.drop_first() + (seq![x] + a));
        assert(other.drop_first() =~= front.drop_first() + (seq![y] + b));
        assert((front + b).drop_first() =~= front.drop_first() + b);
    }
}

/// A directory is listed with a slash behind its name, anything else by its name alone.
pub proof fn law_listed_names(entries: Seq<DirEntryView>, i: int)
    requires
        0 <= i < entries.len(),
    ensures
        listed_names(entries).len() == entries.len(),
        entries[i].is_dir ==> listed_names(entries)[i] == entries[i].name + seq!['/'],
        !entries[i].is_dir ==> listed_names(entries)[i] == entries[i].name,
{
    assert(entries[i].name.push('/') =~= entries[i].name + seq!['/']);
}

/// A file is previewed by its first 1200 characters; a binary or unreadable one is left out, and
/// says so.
pub proof fn law_previews(bytes: Seq<u8>)
    ensures
        preview_spec(None) == "[unreadable file omitted]"@,
        bytes.contains(0u8) ==> preview_spec(Some(bytes)) == "[binary file omitted]"@,
        !bytes.contains(0u8) ==> ({
            let text = lossy_text_spec(bytes);
            preview_spec(Some(bytes)) == (if text.len() <= 1200 {
                text
            } else {
                text.take(1200) + "\n[truncated]"@
            })
        }),
{
}

/// The state of a repository is told without the white space around it, and not at all where it
/// is blank.
pub proof fn law_repository_state(front: Seq<char>, text: Seq<char>, back: Seq<char>)
    requires
        is_blank(front),
        is_blank(back),
        text.len() > 0 ==> !is_white_space_spec(text[0]) && !is_white_space_spec(text.last()),
    ensures
        text.len() == 0 ==> status_spec(front + text + back) is None,
        0 < text.len() <= 8192 ==> status_spec(front + text + back) == Some(text),
        text.len() > 8192 ==> status_spec(front + text + back) == Some(
            text.take(8192) + "\n[truncated]"@,
        ),
{
    law_trim_takes_white_space(front, text, back);
}

/// Which file is a readme: one whose name starts with `readme`, in capital or small letters.
pub proof fn law_readmes(name: Seq<char>, rest: Seq<char>)
    ensures
        is_readme("readme"@ + rest),
        is_readme("README"@ + rest),
        is_readme("Readme"@ + rest),
        is_readme(name) ==> name.len() >= 6 && lower(name).take(6) == "readme"@,
{
    reveal_strlit("readme");
    reveal_strlit("README");
    reveal_strlit("Readme");
    assert(lower("readme"@ + rest).subrange(0, 6) =~= "readme"@);
    assert(lower("README"@ + rest).subrange(0, 6) =~= "readme"@);
    assert(lower("Readme"@ + rest).subrange(0, 6) =~= "readme"@);
    if is_readme(name) {
        assert(lower(name).subrange(0, 6) =~= lower(name).take(6));
    }
}

} // verus!
