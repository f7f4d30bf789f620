//! Which shell commands only read, and so may run without the user's approval.

use crate::text::{
    is_blank, is_white_space_spec, join_spec, law_trim_is_final, law_trim_takes_white_space,
    occurs_at, starts_with, str_eq, take_chars, take_spec, to_chars, trim, trim_end_spec,
    trim_spec, trim_start_spec, words_spec,
};
use vstd::prelude::*;
use vstd::slice::slice_subrange;

verus! {

// ─── Pipelines ───────────────────────────────────────────────────────────────

/// The quoting in force at a place of a command.
#[derive(Clone, Copy, PartialEq, Eq, Debug, Structural)]
pub enum Quoting {
    /// Outside any quotes.
    Plain,
    /// Within single quotes.
    Single,
    /// Within double quotes.
    Double,
    /// Behind a backslash outside quotes.
    PlainEscape,
    /// Behind a backslash within double quotes.
    DoubleEscape,
}

/// The quoting behind one more character.
pub open spec fn quoting_step(q: Quoting, c: char) -> Quoting {
    match q {
        Quoting::Plain => if c == '\\' {
            Quoting::PlainEscape
        } else if c == '\'' {
            Quoting::Single
        } else if c == '"' {
            Quoting::Double
        } else {
            Quoting::Plain
        },
        Quoting::Single => if c == '\'' {
            Quoting::Plain
        } else {
            Quoting::Single
        },
        Quoting::Double => if c == '\\' {
            Quoting::DoubleEscape
        } else if c == '"' {
            Quoting::Plain
        } else {
            Quoting::Double
        },
        Quoting::PlainEscape => Quoting::Plain,
        Quoting::DoubleEscape => Quoting::Double,
    }
}

/// The quoting behind the text `s`.
pub open spec fn quoting_after(s: Seq<char>) -> Quoting
    decreases s.len(),
{
    if s.len() == 0 {
        Quoting::Plain
    } else {
        quoting_step(quoting_after(s.drop_last()), s.last())
    }
}

/// Whether the character `c` under the quoting `q`, with `next` behind it, makes a command more
/// than a plain pipeline: a line break, a command substitution, a list or background operator, a
/// redirection or `||`.
pub open spec fn breaks_pipeline(q: Quoting, c: char, next: Option<char>) -> bool {
    match q {
        Quoting::PlainEscape | Quoting::DoubleEscape => c == '\n' || c == '\r',
        _ => {
            ||| c == '\n' || c == '\r' || c == '`'
            ||| c == '$' && next == Some('(')
            ||| q == Quoting::Plain && (c == ';' || c == '&' || c == '>' || c == '<')
            ||| q == Quoting::Plain && c == '|' && next == Some('|')
        },
    }
}

/// The character with the index `i`.
pub open spec fn char_at(s: Seq<char>, i: int) -> Option<char> {
    if 0 <= i < s.len() {
        Some(s[i])
    } else {
        None
    }
}

/// Whether the character with the index `i` makes the command more than a plain pipeline.
pub open spec fn breaks_at(s: Seq<char>, i: int) -> bool {
    0 <= i < s.len() && breaks_pipeline(quoting_after(s.take(i)), s[i], char_at(s, i + 1))
}

/// The parts of `s` between the pipe characters that are not quoted.
pub open spec fn pieces_spec(s: Seq<char>) -> Seq<Seq<char>>
    decreases s.len(),
{
    if s.len() == 0 {
        seq![Seq::<char>::empty()]
    } else {
        let before = pieces_spec(s.drop_last());
        if s.last() == '|' && quoting_after(s.drop_last()) == Quoting::Plain {
            before.push(Seq::empty())
        } else {
            before.drop_last().push(before.last().push(s.last()))
        }
    }
}

/// Whether `s` is a plain pipeline: nothing breaks it, all quotes are closed, and no command of
/// it is empty.
pub open spec fn is_pipeline(s: Seq<char>) -> bool {
    &&& forall|i: int| !breaks_at(s, i)
    &&& quoting_after(s) == Quoting::Plain
    &&& forall|i: int| 0 <= i < pieces_spec(s).len() ==> trim_spec(#[trigger] pieces_spec(s)[i]).len()
        > 0
}

/// The commands of a plain pipeline.
pub open spec fn pipeline_spec(s: Seq<char>) -> Option<Seq<Seq<char>>> {
    if is_pipeline(s) {
        Some(Seq::new(pieces_spec(s).len(), |i: int| trim_spec(pieces_spec(s)[i])))
    } else {
        None
    }
}

fn next_quoting(q: Quoting, c: char) -> (r: Quoting)
    ensures
        r == quoting_step(q, c),
{
    match q {
        Quoting::Plain => if c == '\\' {
            Quoting::PlainEscape
        } else if c == '\'' {
            Quoting::Single
        } else if c == '"' {
            Quoting::Double
        } else {
            Quoting::Plain
        },
        Quoting::Single => if c == '\'' {
            Quoting::Plain
        } else {
            Quoting::Single
        },
        Quoting::Double => if c == '\\' {
            Quoting::DoubleEscape
        } else if c == '"' {
            Quoting::Plain
        } else {
            Quoting::Double
        },
        Quoting::PlainEscape => Quoting::Plain,
        Quoting::DoubleEscape => Quoting::Double,
    }
}

fn char_breaks(q: Quoting, c: char, next: Option<char>) -> (r: bool)
    ensures
        r == breaks_pipeline(q, c, next),
{
    let next_is_paren: bool = match next {
        Some(n) => n == '(',
        None => false,
    };
    let next_is_pipe: bool = match next {
        Some(n) => n == '|',
        None => false,
    };
    match q {
        Quoting::PlainEscape => c == '\n' || c == '\r',
        Quoting::DoubleEscape => c == '\n' || c == '\r',
        Quoting::Plain => c == '\n' || c == '\r' || c == '`' || (c == '$' && next_is_paren) || c
            == ';' || c == '&' || c == '>' || c == '<' || (c == '|' && next_is_pipe),
        Quoting::Single => c == '\n' || c == '\r' || c == '`' || (c == '$' && next_is_paren),
        Quoting::Double => c == '\n' || c == '\r' || c == '`' || (c == '$' && next_is_paren),
    }
}

proof fn lemma_pieces_len(s: Seq<char>)
    ensures
        pieces_spec(s).len() >= 1,
    decreases s.len(),
{
    if s.len() > 0 {
        lemma_pieces_len(s.drop_last());
    }
}

/// A piece that a pipe character ends stays as it is, whatever stands behind it.
proof fn lemma_pieces_prefix(s: Seq<char>, k: int)
    requires
        0 <= k <= s.len(),
    ensures
        pieces_spec(s).len() >= pieces_spec(s.take(k)).len(),
        forall|i: int|
            0 <= i < pieces_spec(s.take(k)).len() - 1 ==> pieces_spec(s)[i] == #[trigger] pieces_spec(
                s.take(k),
            )[i],
    decreases s.len(),
{
    if k == s.len() {
        assert(s.take(k) =~= s);
    } else {
        let shorter = s.drop_last();
        assert(shorter.take(k) =~= s.take(k));
        lemma_pieces_prefix(shorter, k);
        lemma_pieces_len(shorter);
        lemma_pieces_len(s.take(k));
    }
}

/// Split `command` into the commands of its pipeline; there are none where it is more than a
/// plain pipeline.
pub fn split_shell_pipeline(command: &str) -> (r: Option<Vec<String>>)
    ensures
        r.deep_view() == pipeline_spec(command@),
{
    let ghost s = command@;
    let chars: Vec<char> = to_chars(command);
    let mut segments: Vec<String> = Vec::new();
    let mut current: String = String::new();
    let mut q: Quoting = Quoting::Plain;
    let mut i: usize = 0;
    assert(s.take(0) =~= Seq::empty());
    while i < chars.len()
        invariant
            i <= chars.len(),
            chars@ == s,
            s == command@,
            q == quoting_after(s.take(i as int)),
            forall|j: int| j < i ==> !breaks_at(s, j),
            pieces_spec(s.take(i as int)).len() == segments@.len() + 1,
            pieces_spec(s.take(i as int)).last() == current@,
            forall|j: int|
                0 <= j < segments@.len() ==> (#[trigger] segments@[j])@ == trim_spec(
                    pieces_spec(s.take(i as int))[j],
                ) && segments@[j]@.len() > 0,
        decreases chars.len() - i,
    {
        let ghost shorter = s.take(i as int);
        let ghost longer = s.take(i + 1);
        assert(longer.drop_last() =~= shorter);
        assert(longer.last() == s[i as int]);
        let c: char = chars[i];
        let next: Option<char> = if i + 1 < chars.len() {
            Some(chars[i + 1])
        } else {
            None
        };
        if char_breaks(q, c, next) {
            assert(breaks_at(s, i as int));
            return None;
        }
        if c == '|' && q == Quoting::Plain {
            let segment: &str = trim(current.as_str());
            if segment.is_empty() {
                proof {
                    lemma_pieces_prefix(s, i + 1);
                    let k = pieces_spec(shorter).len() - 1;
                    assert(pieces_spec(longer)[k] == current@);
                    assert(trim_spec(pieces_spec(s)[k]).len() == 0);
                }
                return None;
            }
            segments.push(segment.to_string());
            current = String::new();
        } else {
            current.push(c);
        }
        q = next_quoting(q, c);
        i += 1;
    }
    assert(s.take(s.len() as int) =~= s);
    if q != Quoting::Plain {
        return None;
    }
    let segment: &str = trim(current.as_str());
    if segment.is_empty() {
        proof {
            let k = pieces_spec(s).len() - 1;
            assert(trim_spec(pieces_spec(s)[k]).len() == 0);
        }
        return None;
    }
    segments.push(segment.to_string());
    proof {
        let all = Seq::new(pieces_spec(s).len(), |j: int| trim_spec(pieces_spec(s)[j]));
        assert(segments.deep_view() =~= all);
        assert forall|j: int| 0 <= j < pieces_spec(s).len() implies trim_spec(
            #[trigger] pieces_spec(s)[j],
        ).len() > 0 by {
            assert(segments@[j]@ == trim_spec(pieces_spec(s)[j]));
        }
        assert(forall|j: int| !breaks_at(s, j));
    }
    Some(segments)
}

// ─── Commands that only read ─────────────────────────────────────────────────

/// The programs that only read, whatever their arguments are.
pub open spec fn is_reader_spec(name: Seq<char>) -> bool {
    ||| name == "pwd"@
    ||| name == "ls"@
    ||| name == "cat"@
    ||| name == "head"@
    ||| name == "tail"@
    ||| name == "wc"@
    ||| name == "rg"@
    ||| name == "grep"@
    ||| name == "which"@
    ||| name == "whereis"@
    ||| name == "cut"@
    ||| name == "uniq"@
    ||| name == "tr"@
    ||| name == "nl"@
    ||| name == "stat"@
    ||| name == "file"@
    ||| name == "realpath"@
    ||| name == "readlink"@
    ||| name == "basename"@
    ||| name == "dirname"@
}

fn is_reader(name: &str) -> (r: bool)
    ensures
        r == is_reader_spec(name@),
{
    str_eq(name, "pwd")
        || str_eq(name, "ls")
        || str_eq(name, "cat")
        || str_eq(name, "head")
        || str_eq(name, "tail")
        || str_eq(name, "wc")
        || str_eq(name, "rg")
        || str_eq(name, "grep")
        || str_eq(name, "which")
        || str_eq(name, "whereis")
        || str_eq(name, "cut")
        || str_eq(name, "uniq")
        || str_eq(name, "tr")
        || str_eq(name, "nl")
        || str_eq(name, "stat")
        || str_eq(name, "file")
        || str_eq(name, "realpath")
        || str_eq(name, "readlink")
        || str_eq(name, "basename")
        || str_eq(name, "dirname")
}

/// Whether the argument `token` is the output flag `flag`, alone or with a value in it:
/// `--flag=value` for a long flag, `-fvalue` for a short one.
pub open spec fn is_output_flag(token: Seq<char>, flag: Seq<char>) -> bool {
    ||| token == flag
    ||| if occurs_at(flag, "--"@, 0) {
        occurs_at(token, flag + "="@, 0)
    } else {
        occurs_at(token, flag, 0) && token.len() > flag.len()
    }
}

/// Whether an argument behind the program name is one of `flags`.
pub open spec fn has_output_flag_spec(tokens: Seq<Seq<char>>, flags: Seq<Seq<char>>) -> bool {
    exists|i: int, j: int|
        1 <= i < tokens.len() && 0 <= j < flags.len() && is_output_flag(
            #[trigger] tokens[i],
            #[trigger] flags[j],
        )
}

fn matches_output_flag(token: &str, flag: &str) -> (r: bool)
    ensures
        r == is_output_flag(token@, flag@),
{
    if str_eq(token, flag) {
        return true;
    }
    if starts_with(flag, "--") {
        let mut with_value: String = flag.to_string();
        with_value.append("=");
        starts_with(token, with_value.as_str())
    } else {
        starts_with(token, flag) && token.unicode_len() > flag.unicode_len()
    }
}

/// Whether an argument behind the program name is one of `flags`.
pub fn has_output_flag(tokens: &[String], flags: &[&str]) -> (r: bool)
    ensures
        r == has_output_flag_spec(tokens.deep_view(), flags.deep_view()),
{
    let mut i: usize = 1;
    while i < tokens.len()
        invariant
            1 <= i,
            i <= tokens.len() || i == 1,
            forall|k: int, j: int|
                1 <= k < i && k < tokens.deep_view().len() && 0 <= j < flags.deep_view().len()
                    ==> !is_output_flag(
                    #[trigger] tokens.deep_view()[k],
                    #[trigger] flags.deep_view()[j],
                ),
        decreases tokens.len() - i,
    {
        assert(tokens.deep_view()[i as int] == tokens@[i as int]@);
        let mut j: usize = 0;
        while j < flags.len()
            invariant
                1 <= i < tokens.len(),
                j <= flags.len(),
                tokens.deep_view()[i as int] == tokens@[i as int]@,
                forall|m: int|
                    0 <= m < j ==> !is_output_flag(
                        tokens.deep_view()[i as int],
                        #[trigger] flags.deep_view()[m],
                    ),
            decreases flags.len() - j,
        {
            assert(flags.deep_view()[j as int] == flags@[j as int]@);
            if matches_output_flag(tokens[i].as_str(), flags[j]) {
                assert(is_output_flag(tokens.deep_view()[i as int], flags.deep_view()[j as int]));
                return true;
            }
            j += 1;
        }
        i += 1;
    }
    false
}

/// The flags with which `sort`, `tree` and `git` write to a file.
pub open spec fn output_flags() -> Seq<Seq<char>> {
    seq!["-o"@, "--output"@]
}

fn writes_output(tokens: &[String]) -> (r: bool)
    ensures
        r == has_output_flag_spec(tokens.deep_view(), output_flags()),
{
    let flags: [&str; 2] = ["-o", "--output"];
    assert(flags.deep_view() =~= output_flags());
    let slice: &[&str] = flags.as_slice();
    assert(slice.deep_view() =~= output_flags());
    has_output_flag(tokens, slice)
}

/// The arguments with which `find` writes, deletes or runs something.
pub open spec fn is_find_action(token: Seq<char>) -> bool {
    ||| token == "-delete"@
    ||| token == "-exec"@
    ||| token == "-execdir"@
    ||| token == "-ok"@
    ||| token == "-okdir"@
    ||| token == "-fprint"@
    ||| token == "-fprint0"@
    ||| token == "-fprintf"@
    ||| token == "-fls"@
}

fn acts_on_files(token: &str) -> (r: bool)
    ensures
        r == is_find_action(token@),
{
    str_eq(token, "-delete")
        || str_eq(token, "-exec")
        || str_eq(token, "-execdir")
        || str_eq(token, "-ok")
        || str_eq(token, "-okdir")
        || str_eq(token, "-fprint")
        || str_eq(token, "-fprint0")
        || str_eq(token, "-fprintf")
        || str_eq(token, "-fls")
}

/// Whether a `find` command has no argument that writes, deletes or runs something.
pub open spec fn find_reads(tokens: Seq<Seq<char>>) -> bool {
    forall|i: int| 1 <= i < tokens.len() ==> !is_find_action(#[trigger] tokens[i])
}

/// Whether a `find` command only reads.
pub fn find_command_is_read_only(tokens: &[String]) -> (r: bool)
    ensures
        r == find_reads(tokens.deep_view()),
{
    let mut i: usize = 1;
    while i < tokens.len()
        invariant
            1 <= i,
            i <= tokens.len() || i == 1,
            forall|k: int|
                1 <= k < i && k < tokens.deep_view().len() ==> !is_find_action(
                    #[trigger] tokens.deep_view()[k],
                ),
        decreases tokens.len() - i,
    {
        assert(tokens.deep_view()[i as int] == tokens@[i as int]@);
        if acts_on_files(tokens[i].as_str()) {
            return false;
        }
        i += 1;
    }
    true
}

/// Whether no argument behind the first is an option.
pub open spec fn only_patterns_spec(args: Seq<Seq<char>>) -> bool {
    forall|i: int| 1 <= i < args.len() ==> !occurs_at(#[trigger] args[i], "-"@, 0)
}

fn only_patterns(args: &[String]) -> (r: bool)
    ensures
        r == only_patterns_spec(args.deep_view()),
{
    let mut i: usize = 1;
    while i < args.len()
        invariant
            1 <= i,
            i <= args.len() || i == 1,
            forall|k: int|
                1 <= k < i && k < args.deep_view().len() ==> !occurs_at(
                    #[trigger] args.deep_view()[k],
                    "-"@,
                    0,
                ),
        decreases args.len() - i,
    {
        assert(args.deep_view()[i as int] == args@[i as int]@);
        if starts_with(args[i].as_str(), "-") {
            return false;
        }
        i += 1;
    }
    true
}

/// The forms of `git branch` that only list.
pub open spec fn git_branch_spec(args: Seq<Seq<char>>) -> bool {
    ||| args.len() == 0
    ||| args.len() == 1 && (args[0] == "--show-current"@ || args[0] == "-a"@ || args[0] == "--all"@
        || args[0] == "-r"@ || args[0] == "--remotes"@ || args[0] == "-v"@ || args[0] == "-vv"@)
    ||| args.len() > 0 && args[0] == "--list"@ && only_patterns_spec(args)
}

/// Whether `git branch` with these arguments only reads.
pub fn git_branch_command_is_read_only(args: &[String]) -> (r: bool)
    ensures
        r == git_branch_spec(args.deep_view()),
{
    if args.len() == 0 {
        return true;
    }
    assert(args.deep_view()[0] == args@[0]@);
    let first: &str = args[0].as_str();
    if args.len() == 1 && (str_eq(first, "--show-current") || str_eq(first, "-a") || str_eq(
        first,
        "--all",
    ) || str_eq(first, "-r") || str_eq(first, "--remotes") || str_eq(first, "-v") || str_eq(
        first,
        "-vv",
    )) {
        return true;
    }
    str_eq(first, "--list") && only_patterns(args)
}

/// The forms of `git remote` that only list.
pub open spec fn git_remote_spec(args: Seq<Seq<char>>) -> bool {
    args.len() == 0 || (args.len() == 1 && args[0] == "-v"@)
}

/// Whether `git remote` with these arguments only reads.
pub fn git_remote_command_is_read_only(args: &[String]) -> (r: bool)
    ensures
        r == git_remote_spec(args.deep_view()),
{
    if args.len() == 0 {
        return true;
    }
    assert(args.deep_view()[0] == args@[0]@);
    args.len() == 1 && str_eq(args[0].as_str(), "-v")
}

/// The forms of `git tag` that only list.
pub open spec fn git_tag_spec(args: Seq<Seq<char>>) -> bool {
    args.len() == 0 || ((args[0] == "-l"@ || args[0] == "--list"@) && only_patterns_spec(args))
}

/// Whether `git tag` with these arguments only reads.
pub fn git_tag_command_is_read_only(args: &[String]) -> (r: bool)
    ensures
        r == git_tag_spec(args.deep_view()),
{
    if args.len() == 0 {
        return true;
    }
    assert(args.deep_view()[0] == args@[0]@);
    let first: &str = args[0].as_str();
    (str_eq(first, "-l") || str_eq(first, "--list")) && only_patterns(args)
}

/// The form of `git stash` that only lists.
pub open spec fn git_stash_spec(args: Seq<Seq<char>>) -> bool {
    args.len() == 1 && args[0] == "list"@
}

/// Whether `git stash` with these arguments only reads.
pub fn git_stash_command_is_read_only(args: &[String]) -> (r: bool)
    ensures
        r == git_stash_spec(args.deep_view()),
{
    if args.len() != 1 {
        return false;
    }
    assert(args.deep_view()[0] == args@[0]@);
    str_eq(args[0].as_str(), "list")
}

/// The `git` commands that only read, whatever their arguments are (but for an output flag).
pub open spec fn is_git_reader_spec(name: Seq<char>) -> bool {
    ||| name == "status"@
    ||| name == "diff"@
    ||| name == "show"@
    ||| name == "log"@
    ||| name == "grep"@
    ||| name == "ls-files"@
    ||| name == "rev-parse"@
}

fn is_git_reader(name: &str) -> (r: bool)
    ensures
        r == is_git_reader_spec(name@),
{
    str_eq(name, "status")
        || str_eq(name, "diff")
        || str_eq(name, "show")
        || str_eq(name, "log")
        || str_eq(name, "grep")
        || str_eq(name, "ls-files")
        || str_eq(name, "rev-parse")
}

/// Whether a `git` command only reads.
pub open spec fn git_spec(tokens: Seq<Seq<char>>) -> bool {
    &&& !has_output_flag_spec(tokens, output_flags())
    &&& tokens.len() >= 2
    &&& {
        ||| is_git_reader_spec(tokens[1])
        ||| tokens[1] == "branch"@ && git_branch_spec(tokens.skip(2))
        ||| tokens[1] == "remote"@ && git_remote_spec(tokens.skip(2))
        ||| tokens[1] == "tag"@ && git_tag_spec(tokens.skip(2))
        ||| tokens[1] == "stash"@ && git_stash_spec(tokens.skip(2))
    }
}

/// Whether a `git` command only reads.
pub fn git_command_is_read_only(tokens: &[String]) -> (r: bool)
    ensures
        r == git_spec(tokens.deep_view()),
{
    if writes_output(tokens) || tokens.len() < 2 {
        return false;
    }
    assert(tokens.deep_view()[1] == tokens@[1]@);
    let name: &str = tokens[1].as_str();
    let args: &[String] = slice_subrange(tokens, 2, tokens.len());
    assert(args.deep_view() =~= tokens.deep_view().skip(2));
    is_git_reader(name) || (str_eq(name, "branch") && git_branch_command_is_read_only(args)) || (
    str_eq(name, "remote") && git_remote_command_is_read_only(args)) || (str_eq(name, "tag")
        && git_tag_command_is_read_only(args)) || (str_eq(name, "stash")
        && git_stash_command_is_read_only(args))
}

/// Whether a command, given by its words, only reads.
pub open spec fn read_only_spec(tokens: Seq<Seq<char>>) -> bool {
    ||| is_reader_spec(tokens[0])
    ||| (tokens[0] == "sort"@ || tokens[0] == "tree"@) && !has_output_flag_spec(
        tokens,
        output_flags(),
    )
    ||| tokens[0] == "find"@ && find_reads(tokens)
    ||| tokens[0] == "git"@ && git_spec(tokens)
}

/// Whether a command, given by its words, only reads.
pub fn shell_tokens_are_read_only(tokens: &[String]) -> (r: bool)
    requires
        tokens@.len() > 0,
    ensures
        r == read_only_spec(tokens.deep_view()),
{
    assert(tokens.deep_view()[0] == tokens@[0]@);
    let name: &str = tokens[0].as_str();
    is_reader(name) || ((str_eq(name, "sort") || str_eq(name, "tree")) && !writes_output(tokens))
        || (str_eq(name, "find") && find_command_is_read_only(tokens)) || (str_eq(name, "git")
        && git_command_is_read_only(tokens))
}

// ─── Approval ────────────────────────────────────────────────────────────────

/// The words into which `shlex` splits a command; there are none where the quoting is erroneous.
pub uninterp spec fn shell_words_spec(s: Seq<char>) -> Option<Seq<Seq<char>>>;

/// Whether a character means only itself in a command: it is no quote, no backslash, does not
/// start a comment, and is no white space that a shell does not know.
pub open spec fn is_plain_char(c: char) -> bool {
    &&& c != '\'' && c != '"' && c != '\\' && c != '#'
    &&& is_white_space_spec(c) ==> c == ' ' || c == '\t' || c == '\n'
}

/// Whether every character of a command means only itself.
pub open spec fn is_plain_text(s: Seq<char>) -> bool {
    forall|i: int| 0 <= i < s.len() ==> is_plain_char(#[trigger] s[i])
}

/// `shlex::split` splits a command into words as a POSIX shell does, and gives nothing where the
/// input ends within quotes or behind a backslash. It depends on the text alone. Where every
/// character means only itself, the words are those between white space; what they are of another
/// command stays unsaid.
pub assume_specification[ shlex::split ](in_str: &str) -> (r: Option<Vec<String>>)
    ensures
        r.deep_view() == shell_words_spec(in_str@),
        is_plain_text(in_str@) ==> r.deep_view() == Some(words_spec(in_str@)),
;

/// Whether the words of a command (none where they could not be told) are those of a command
/// that only reads.
pub open spec fn words_read(words: Option<Seq<Seq<char>>>) -> bool {
    match words {
        Some(tokens) => tokens.len() > 0 && read_only_spec(tokens),
        None => false,
    }
}

/// Whether the words of a command are those of a command that only reads.
pub fn words_are_read_only(words: &Option<Vec<String>>) -> (r: bool)
    ensures
        r == words_read(words.deep_view()),
{
    match words {
        Some(tokens) => {
            assert(tokens.deep_view().len() == tokens@.len());
            let slice: &[String] = tokens.as_slice();
            assert(slice.deep_view() =~= tokens.deep_view());
            tokens.len() > 0 && shell_tokens_are_read_only(slice)
        },
        None => false,
    }
}

/// Whether every command of a pipeline only reads.
pub open spec fn segments_read(segments: Seq<Seq<char>>) -> bool {
    forall|i: int|
        0 <= i < segments.len() ==> words_read(shell_words_spec(#[trigger] segments[i]))
}

/// Whether a command needs the user's approval: unless it is a plain pipeline of commands that
/// only read.
pub open spec fn requires_approval_spec(command: Seq<char>) -> bool {
    let trimmed = trim_spec(command);
    ||| trimmed.len() == 0
    ||| match pipeline_spec(trimmed) {
        None => true,
        Some(segments) => !segments_read(segments),
    }
}

/// Whether every command of a pipeline only reads, by the words between white space.
pub open spec fn plain_segments_read(segments: Seq<Seq<char>>) -> bool {
    forall|i: int| 0 <= i < segments.len() ==> words_read(Some(words_spec(#[trigger] segments[i])))
}

/// Whether a command is a plain pipeline of commands that only read, by the words between white
/// space.
pub open spec fn plain_reads(command: Seq<char>) -> bool {
    match pipeline_spec(trim_spec(command)) {
        Some(segments) => trim_spec(command).len() > 0 && plain_segments_read(segments),
        None => false,
    }
}

proof fn lemma_trim_keeps_plain(s: Seq<char>)
    requires
        is_plain_text(s),
    ensures
        is_plain_text(trim_spec(s)),
{
    lemma_trim_start_keeps_plain(s);
    lemma_trim_end_keeps_plain(trim_start_spec(s));
}

proof fn lemma_trim_start_keeps_plain(s: Seq<char>)
    requires
        is_plain_text(s),
    ensures
        is_plain_text(trim_start_spec(s)),
    decreases s.len(),
{
    if s.len() > 0 && is_white_space_spec(s[0]) {
        assert forall|i: int| 0 <= i < s.drop_first().len() implies is_plain_char(
            #[trigger] s.drop_first()[i],
        ) by {
            assert(is_plain_char(s[i + 1]));
        }
        lemma_trim_start_keeps_plain(s.drop_first());
    }
}

proof fn lemma_trim_end_keeps_plain(s: Seq<char>)
    requires
        is_plain_text(s),
    ensures
        is_plain_text(trim_end_spec(s)),
    decreases s.len(),
{
    if s.len() > 0 && is_white_space_spec(s.last()) {
        lemma_trim_end_keeps_plain(s.drop_last());
    }
}

proof fn lemma_pieces_keep_plain(s: Seq<char>)
    requires
        is_plain_text(s),
    ensures
        forall|i: int|
            0 <= i < pieces_spec(s).len() ==> is_plain_text(#[trigger] pieces_spec(s)[i]),
    decreases s.len(),
{
    if s.len() > 0 {
        let before = pieces_spec(s.drop_last());
        lemma_pieces_keep_plain(s.drop_last());
        lemma_pieces_len(s.drop_last());
        let pieces = pieces_spec(s);
        assert(is_plain_char(s[s.len() - 1]));
        assert forall|i: int| 0 <= i < pieces.len() implies is_plain_text(#[trigger] pieces[i]) by {
            if i < before.len() {
                assert(is_plain_text(before[i]));
            }
        }
    }
}

proof fn lemma_segments_keep_plain(s: Seq<char>)
    requires
        is_plain_text(s),
        pipeline_spec(s) is Some,
    ensures
        forall|i: int|
            0 <= i < pipeline_spec(s).unwrap().len() ==> is_plain_text(
                #[trigger] pipeline_spec(s).unwrap()[i],
            ),
{
    lemma_pieces_keep_plain(s);
    let segments = pipeline_spec(s).unwrap();
    assert forall|i: int| 0 <= i < segments.len() implies is_plain_text(#[trigger] segments[i]) by {
        assert(is_plain_text(pieces_spec(s)[i]));
        lemma_trim_keeps_plain(pieces_spec(s)[i]);
    }
}

/// Whether a command needs the user's approval.
pub fn shell_command_requires_approval(command: &str) -> (r: bool)
    ensures
        r == requires_approval_spec(command@),
        is_plain_text(trim_spec(command@)) ==> r == !plain_reads(command@),
{
    let trimmed: &str = trim(command);
    if trimmed.is_empty() {
        return true;
    }
    match split_shell_pipeline(trimmed) {
        None => true,
        Some(segments) => {
            let mut i: usize = 0;
            let ghost plain = is_plain_text(trimmed@);
            proof {
                if plain {
                    let all = segments.deep_view();
                    lemma_segments_keep_plain(trimmed@);
                    assert(pipeline_spec(trimmed@).unwrap() == all);
                    assert forall|k: int| 0 <= k < all.len() implies is_plain_text(
                        #[trigger] all[k],
                    ) by {
                        assert(is_plain_text(pipeline_spec(trimmed@).unwrap()[k]));
                    }
                }
            }
            while i < segments.len()
                invariant
                    i <= segments.len(),
                    pipeline_spec(trimmed@) == Some(segments.deep_view()),
                    trimmed@ == trim_spec(command@),
                    trimmed@.len() > 0,
                    plain == is_plain_text(trimmed@),
                    plain ==> forall|k: int|
                        0 <= k < segments.deep_view().len() ==> is_plain_text(
                            #[trigger] segments.deep_view()[k],
                        ),
                    plain ==> forall|k: int|
                        0 <= k < i ==> words_read(
                            Some(words_spec(#[trigger] segments.deep_view()[k])),
                        ),
                    forall|k: int|
                        0 <= k < i ==> words_read(
                            shell_words_spec(#[trigger] segments.deep_view()[k]),
                        ),
                decreases segments.len() - i,
            {
                assert(segments.deep_view()[i as int] == segments@[i as int]@);
                let words: Option<Vec<String>> = shlex::split(segments[i].as_str());
                if !words_are_read_only(&words) {
                    proof {
                        let all = segments.deep_view();
                        assert(all.len() == segments@.len());
                        assert(!words_read(shell_words_spec(all[i as int])));
                        assert(!segments_read(all));
                        if plain {
                            assert(is_plain_text(all[i as int]));
                            assert(!words_read(Some(words_spec(all[i as int]))));
                            assert(!plain_segments_read(all));
                        }
                    }
                    return true;
                }
                i += 1;
            }
            false
        },
    }
}

/// The line with which the user is asked about a shell command; there is none for a command that
/// only reads.
pub open spec fn shell_exec_spec(command: Seq<char>) -> Option<Seq<char>> {
    if trim_spec(command).len() == 0 {
        Some("shell: "@)
    } else if requires_approval_spec(command) {
        Some("shell: "@ + take_spec(command, 60))
    } else {
        None
    }
}

/// The line with which the user is asked about a shell command.
pub fn shell_exec_approval_summary(command: &str) -> (r: Option<String>)
    ensures
        r.deep_view() == shell_exec_spec(command@),
        is_plain_text(trim_spec(command@)) ==> (r is None) == plain_reads(command@),
{
    if trim(command).is_empty() {
        return Some("shell: ".to_string());
    }
    if shell_command_requires_approval(command) {
        let mut line: String = "shell: ".to_string();
        line.append(take_chars(command, 60).as_str());
        Some(line)
    } else {
        None
    }
}

// ─── Laws ────────────────────────────────────────────────────────────────────

/// A command with a character that makes it more than a plain pipeline needs approval.
pub proof fn law_compound_commands_need_approval(command: Seq<char>, i: int)
    requires
        breaks_at(trim_spec(command), i),
    ensures
        requires_approval_spec(command),
        shell_exec_spec(command) is Some,
{
    assert(!is_pipeline(trim_spec(command)));
}

/// A command that runs without approval is a plain pipeline, and each of its commands starts
/// with a program that is known to read only.
pub proof fn law_silent_commands_read(command: Seq<char>)
    requires
        !requires_approval_spec(command),
    ensures
        pipeline_spec(trim_spec(command)) is Some,
        forall|i: int| !breaks_at(trim_spec(command), i),
        forall|i: int|
            0 <= i < pipeline_spec(trim_spec(command)).unwrap().len() ==> ({
                let words = shell_words_spec(#[trigger] pipeline_spec(trim_spec(command)).unwrap()[i]);
                words is Some && words.unwrap().len() > 0 && {
                    let name = words.unwrap()[0];
                    is_reader_spec(name) || name == "sort"@ || name == "tree"@ || name == "find"@
                        || name == "git"@
                }
            }),
{
    let segments = pipeline_spec(trim_spec(command)).unwrap();
    assert forall|i: int| 0 <= i < segments.len() implies ({
        let words = shell_words_spec(#[trigger] segments[i]);
        words is Some && words.unwrap().len() > 0 && {
            let name = words.unwrap()[0];
            is_reader_spec(name) || name == "sort"@ || name == "tree"@ || name == "find"@ || name
                == "git"@
        }
    }) by {
        assert(words_read(shell_words_spec(segments[i])));
    }
}

proof fn lemma_plain_quoting(s: Seq<char>)
    requires
        is_plain_text(s),
    ensures
        quoting_after(s) == Quoting::Plain,
    decreases s.len(),
{
    if s.len() > 0 {
        assert(is_plain_char(s[s.len() - 1]));
        lemma_plain_quoting(s.drop_last());
    }
}

proof fn lemma_one_piece(s: Seq<char>)
    requires
        !s.contains('|'),
    ensures
        pieces_spec(s) == seq![s],
    decreases s.len(),
{
    if s.len() == 0 {
        assert(s =~= Seq::empty());
    } else {
        assert(s.contains(s.last()));
        assert forall|c: char| s.drop_last().contains(c) implies s.contains(c) by {}
        lemma_one_piece(s.drop_last());
        assert(s.drop_last().push(s.last()) =~= s);
        assert(pieces_spec(s) =~= seq![s]);
    }
}

/// A single command of characters that mean only themselves runs without approval exactly where
/// its words are those of a command that only reads.
pub proof fn law_plain_command(command: Seq<char>)
    requires
        trim_spec(command).len() > 0,
        is_plain_text(trim_spec(command)),
        !trim_spec(command).contains('|'),
        forall|i: int| !breaks_at(trim_spec(command), i),
    ensures
        plain_reads(command) == words_read(Some(words_spec(trim_spec(command)))),
{
    let s = trim_spec(command);
    lemma_plain_quoting(s);
    lemma_one_piece(s);
    law_trim_is_final(command);
    assert(pieces_spec(s)[0] == s);
    assert(is_pipeline(s));
    let segments = pipeline_spec(s).unwrap();
    assert(segments[0] == s);
    assert(segments.len() == 1);
    assert(plain_segments_read(segments) == words_read(Some(words_spec(segments[0]))));
}

/// A command of `sort`, `tree` or `git` with an output flag never counts as one that only reads.
pub proof fn law_output_flags_need_approval(tokens: Seq<Seq<char>>, i: int, j: int)
    requires
        1 <= i < tokens.len(),
        0 <= j < output_flags().len(),
        is_output_flag(tokens[i], output_flags()[j]),
        tokens[0] == "sort"@ || tokens[0] == "tree"@ || tokens[0] == "git"@,
    ensures
        !read_only_spec(tokens),
{
    assert(has_output_flag_spec(tokens, output_flags()));
    reveal_strlit("sort");
    reveal_strlit("tree");
    reveal_strlit("git");
    reveal_strlit("find");
    lemma_writers_are_no_readers(tokens[0]);
    if tokens[0] == "find"@ {
        assert(tokens[0][0] == 'f');
    }
    if tokens[0] == "sort"@ {
        assert(tokens[0][0] == 's');
    }
}

proof fn lemma_writers_are_no_readers(name: Seq<char>)
    requires
        name == "sort"@ || name == "tree"@ || name == "git"@,
    ensures
        !is_reader_spec(name),
{
    reveal_strlit("sort");
    reveal_strlit("tree");
    reveal_strlit("git");
    reveal_strlit("pwd");
    reveal_strlit("ls");
    reveal_strlit("cat");
    reveal_strlit("head");
    reveal_strlit("tail");
    reveal_strlit("wc");
    reveal_strlit("rg");
    reveal_strlit("grep");
    reveal_strlit("which");
    reveal_strlit("whereis");
    reveal_strlit("cut");
    reveal_strlit("uniq");
    reveal_strlit("tr");
    reveal_strlit("nl");
    reveal_strlit("stat");
    reveal_strlit("file");
    reveal_strlit("realpath");
    reveal_strlit("readlink");
    reveal_strlit("basename");
    reveal_strlit("dirname");
    assert(name[0] != "pwd"@[0] && name[0] != "cat"@[0] && name[0] != "cut"@[0]);
    assert(name[0] != "head"@[0] && name[0] != "uniq"@[0] && name[0] != "file"@[0]);
    assert(name[1] != "tail"@[1] && name[1] != "stat"@[1]);
    assert(name.len() == 4 ==> name[0] != "grep"@[0]);
    assert(name.len() == 3 || name.len() == 4);
    assert("ls"@.len() == 2);
    assert("wc"@.len() == 2);
    assert("rg"@.len() == 2);
    assert("tr"@.len() == 2);
    assert("nl"@.len() == 2);
    assert("which"@.len() == 5);
    assert("whereis"@.len() == 7);
    assert("realpath"@.len() == 8);
    assert("readlink"@.len() == 8);
    assert("basename"@.len() == 8);
    assert("dirname"@.len() == 7);
    assert("grep"@.len() == 4);
}

/// `find` is none of the programs that only read whatever their arguments are, nor `sort`,
/// `tree` or `git`.
proof fn lemma_find_is_no_reader()
    ensures
        !is_reader_spec("find"@),
        "find"@ != "sort"@,
        "find"@ != "tree"@,
        "find"@ != "git"@,
{
    reveal_strlit("find");
    reveal_strlit("sort");
    reveal_strlit("tree");
    reveal_strlit("git");
    reveal_strlit("pwd");
    reveal_strlit("ls");
    reveal_strlit("cat");
    reveal_strlit("head");
    reveal_strlit("tail");
    reveal_strlit("wc");
    reveal_strlit("rg");
    reveal_strlit("grep");
    reveal_strlit("which");
    reveal_strlit("whereis");
    reveal_strlit("cut");
    reveal_strlit("uniq");
    reveal_strlit("tr");
    reveal_strlit("nl");
    reveal_strlit("stat");
    reveal_strlit("file");
    reveal_strlit("realpath");
    reveal_strlit("readlink");
    reveal_strlit("basename");
    reveal_strlit("dirname");
    let name = "find"@;
    assert(name.len() == 4 && name[0] == 'f' && name[2] == 'n');
    assert("sort"@[0] == 's' && "tree"@[0] == 't' && "git"@.len() == 3);
    assert("pwd"@.len() == 3 && "cat"@.len() == 3 && "cut"@.len() == 3);
    assert("ls"@.len() == 2 && "wc"@.len() == 2 && "rg"@.len() == 2);
    assert("tr"@.len() == 2 && "nl"@.len() == 2);
    assert("head"@[0] == 'h' && "tail"@[0] == 't' && "grep"@[0] == 'g');
    assert("uniq"@[0] == 'u' && "stat"@[0] == 's' && "file"@[2] == 'l');
    assert("which"@.len() == 5 && "whereis"@.len() == 7 && "dirname"@.len() == 7);
    assert("realpath"@.len() == 8 && "readlink"@.len() == 8 && "basename"@.len() == 8);
}

/// `sort`, `tree` and `git` are three programs.
proof fn lemma_writers_differ()
    ensures
        "sort"@ != "tree"@,
        "sort"@ != "git"@,
        "tree"@ != "git"@,
{
    reveal_strlit("sort");
    reveal_strlit("tree");
    reveal_strlit("git");
    assert("sort"@[0] == 's' && "tree"@[0] == 't' && "git"@[0] == 'g');
}

/// A `find` command that deletes, runs a program or writes a file never counts as one that only
/// reads, wherever behind the program name the argument stands. Without such an argument it does.
pub proof fn law_find_actions_need_approval(tokens: Seq<Seq<char>>)
    requires
        tokens.len() > 0,
        tokens[0] == "find"@,
    ensures
        forall|i: int|
            1 <= i < tokens.len() && (#[trigger] tokens[i] == "-delete"@ || tokens[i] == "-exec"@
                || tokens[i] == "-execdir"@ || tokens[i] == "-ok"@ || tokens[i] == "-okdir"@
                || tokens[i] == "-fprint"@ || tokens[i] == "-fprint0"@ || tokens[i] == "-fprintf"@
                || tokens[i] == "-fls"@) ==> !read_only_spec(tokens),
        (forall|i: int|
            1 <= i < tokens.len() ==> #[trigger] tokens[i] != "-delete"@ && tokens[i] != "-exec"@
                && tokens[i] != "-execdir"@ && tokens[i] != "-ok"@ && tokens[i] != "-okdir"@
                && tokens[i] != "-fprint"@ && tokens[i] != "-fprint0"@ && tokens[i] != "-fprintf"@
                && tokens[i] != "-fls"@) ==> read_only_spec(tokens),
{
    lemma_find_is_no_reader();
}

/// A command that counts as one that only reads runs one of these programs, and no other.
pub proof fn law_reading_programs(tokens: Seq<Seq<char>>)
    ensures
        ({
            let name = tokens[0];
            let reads_always = name == "pwd"@ || name == "ls"@ || name == "cat"@ || name == "head"@
                || name == "tail"@ || name == "wc"@ || name == "rg"@ || name == "grep"@ || name
                == "which"@ || name == "whereis"@ || name == "cut"@ || name == "uniq"@ || name
                == "tr"@ || name == "nl"@ || name == "stat"@ || name == "file"@ || name
                == "realpath"@ || name == "readlink"@ || name == "basename"@ || name == "dirname"@;
            &&& reads_always ==> read_only_spec(tokens)
            &&& read_only_spec(tokens) ==> reads_always || name == "sort"@ || name == "tree"@
                || name == "find"@ || name == "git"@
        }),
{
}

/// Whether an argument names a file to write to: it starts with `-o`, is `--output`, or starts
/// with `--output=`.
pub open spec fn names_output(token: Seq<char>) -> bool {
    ||| token.len() >= 2 && token[0] == '-' && token[1] == 'o'
    ||| token == "--output"@
    ||| token.len() >= 9 && token.take(9) == "--output="@
}

proof fn lemma_names_output(token: Seq<char>)
    ensures
        names_output(token) == (is_output_flag(token, "-o"@) || is_output_flag(
            token,
            "--output"@,
        )),
{
    reveal_strlit("-o");
    reveal_strlit("--");
    reveal_strlit("=");
    reveal_strlit("--output");
    reveal_strlit("--output=");
    assert("--output"@ + "="@ =~= "--output="@);
    assert("-o"@.len() == 2 && "-o"@[0] == '-' && "-o"@[1] == 'o');
    assert(!occurs_at("-o"@, "--"@, 0)) by {
        if occurs_at("-o"@, "--"@, 0) {
            assert("-o"@.subrange(0, 2)[1] == "--"@[1]);
        }
    }
    assert(occurs_at("--output"@, "--"@, 0)) by {
        assert("--output"@.subrange(0, 2) =~= "--"@);
    }
    if token.len() >= 2 {
        assert(token.subrange(0, 2) =~= "-o"@ <==> token[0] == '-' && token[1] == 'o') by {
            assert(token.subrange(0, 2)[0] == token[0] && token.subrange(0, 2)[1] == token[1]);
        }
        if token.len() == 2 {
            assert(token.subrange(0, 2) =~= token);
        }
    }
    if token.len() >= 9 {
        assert(token.subrange(0, 9) =~= token.take(9));
    }
}

/// `sort` and `tree` only read exactly where no argument names a file to write to, and a `git`
/// command with such an argument never only reads.
pub proof fn law_output_options(tokens: Seq<Seq<char>>)
    requires
        tokens.len() > 0,
    ensures
        tokens[0] == "sort"@ || tokens[0] == "tree"@ ==> (read_only_spec(tokens) <==> forall|i: int|
            1 <= i < tokens.len() ==> !names_output(#[trigger] tokens[i])),
        tokens[0] == "git"@ ==> forall|i: int|
            1 <= i < tokens.len() && names_output(#[trigger] tokens[i]) ==> !read_only_spec(tokens),
{
    lemma_find_is_no_reader();
    lemma_writers_differ();
    if tokens[0] == "sort"@ || tokens[0] == "tree"@ || tokens[0] == "git"@ {
        lemma_writers_are_no_readers(tokens[0]);
    }
    lemma_has_output(tokens);
}

proof fn lemma_has_output(tokens: Seq<Seq<char>>)
    ensures
        has_output_flag_spec(tokens, output_flags()) <==> exists|i: int|
            1 <= i < tokens.len() && names_output(#[trigger] tokens[i]),
{
    let flags = output_flags();
    assert(flags[0] == "-o"@ && flags[1] == "--output"@ && flags.len() == 2);
    if has_output_flag_spec(tokens, flags) {
        let (i, j) = choose|i: int, j: int|
            1 <= i < tokens.len() && 0 <= j < flags.len() && is_output_flag(
                #[trigger] tokens[i],
                #[trigger] flags[j],
            );
        assert(j == 0 || j == 1);
        lemma_names_output(tokens[i]);
        assert(names_output(tokens[i]));
    }
    if exists|i: int| 1 <= i < tokens.len() && names_output(#[trigger] tokens[i]) {
        let i = choose|i: int| 1 <= i < tokens.len() && names_output(#[trigger] tokens[i]);
        lemma_names_output(tokens[i]);
        if is_output_flag(tokens[i], "-o"@) {
            assert(is_output_flag(tokens[i], flags[0]));
        } else {
            assert(is_output_flag(tokens[i], flags[1]));
        }
    }
}

/// The `git` commands that read their arguments with another meaning each are five.
proof fn lemma_git_commands_differ()
    ensures
        !is_git_reader_spec("branch"@),
        !is_git_reader_spec("remote"@),
        !is_git_reader_spec("tag"@),
        !is_git_reader_spec("stash"@),
        "branch"@ != "remote"@,
        "branch"@ != "tag"@,
        "branch"@ != "stash"@,
        "remote"@ != "tag"@,
        "remote"@ != "stash"@,
        "tag"@ != "stash"@,
{
    reveal_strlit("branch");
    reveal_strlit("remote");
    reveal_strlit("tag");
    reveal_strlit("stash");
    reveal_strlit("status");
    reveal_strlit("diff");
    reveal_strlit("show");
    reveal_strlit("log");
    reveal_strlit("grep");
    reveal_strlit("ls-files");
    reveal_strlit("rev-parse");
    assert("branch"@.len() == 6 && "branch"@[0] == 'b');
    assert("remote"@.len() == 6 && "remote"@[0] == 'r');
    assert("tag"@.len() == 3 && "tag"@[0] == 't');
    assert("stash"@.len() == 5 && "stash"@[0] == 's');
    assert("status"@.len() == 6 && "status"@[0] == 's');
    assert("diff"@.len() == 4 && "show"@.len() == 4 && "grep"@.len() == 4);
    assert("log"@.len() == 3 && "log"@[0] == 'l');
    assert("ls-files"@.len() == 8 && "rev-parse"@.len() == 9);
}

/// Which `git` commands only read, where no argument names a file to write to: the seven that
/// show something, and of the four that can also change something exactly the forms that list.
pub proof fn law_reading_git_commands(tokens: Seq<Seq<char>>)
    requires
        tokens.len() > 0,
        tokens[0] == "git"@,
        forall|i: int| 1 <= i < tokens.len() ==> !names_output(#[trigger] tokens[i]),
    ensures
        tokens.len() == 1 ==> !read_only_spec(tokens),
        tokens.len() > 1 ==> ({
            let name = tokens[1];
            let n = tokens.len() - 2;
            let lists = forall|i: int|
                3 <= i < tokens.len() ==> (#[trigger] tokens[i]).len() == 0 || tokens[i][0] != '-';
            let shows = name == "status"@ || name == "diff"@ || name == "show"@ || name == "log"@
                || name == "grep"@ || name == "ls-files"@ || name == "rev-parse"@;
            &&& shows ==> read_only_spec(tokens)
            &&& name == "branch"@ ==> (read_only_spec(tokens) <==> n == 0 || n == 1 && (tokens[2]
                == "--show-current"@ || tokens[2] == "-a"@ || tokens[2] == "--all"@ || tokens[2]
                == "-r"@ || tokens[2] == "--remotes"@ || tokens[2] == "-v"@ || tokens[2]
                == "-vv"@) || tokens[2] == "--list"@ && lists)
            &&& name == "remote"@ ==> (read_only_spec(tokens) <==> n == 0 || n == 1 && tokens[2]
                == "-v"@)
            &&& name == "tag"@ ==> (read_only_spec(tokens) <==> n == 0 || (tokens[2] == "-l"@
                || tokens[2] == "--list"@) && lists)
            &&& name == "stash"@ ==> (read_only_spec(tokens) <==> n == 1 && tokens[2] == "list"@)
            &&& !shows && name != "branch"@ && name != "remote"@ && name != "tag"@ && name
                != "stash"@ ==> !read_only_spec(tokens)
        }),
{
    lemma_find_is_no_reader();
    lemma_writers_differ();
    lemma_writers_are_no_readers(tokens[0]);
    lemma_git_commands_differ();
    lemma_has_output(tokens);
    if tokens.len() > 1 {
        let args = tokens.skip(2);
        assert(args.len() == tokens.len() - 2);
        assert(args.len() > 0 ==> args[0] == tokens[2]);
        reveal_strlit("-");
        assert("-"@.len() == 1 && "-"@[0] == '-');
        assert forall|i: int| 1 <= i < args.len() implies (occurs_at(#[trigger] args[i], "-"@, 0)
            <==> args[i].len() > 0 && args[i][0] == '-') by {
            if args[i].len() > 0 {
                assert(args[i].subrange(0, 1)[0] == args[i][0]);
                if args[i][0] == '-' {
                    assert(args[i].subrange(0, 1) =~= "-"@);
                }
            }
        }
        let lists = forall|i: int|
            3 <= i < tokens.len() ==> (#[trigger] tokens[i]).len() == 0 || tokens[i][0] != '-';
        assert(lists <==> only_patterns_spec(args)) by {
            if lists {
                assert forall|i: int| 1 <= i < args.len() implies !occurs_at(
                    #[trigger] args[i],
                    "-"@,
                    0,
                ) by {
                    assert(args[i] == tokens[i + 2]);
                }
            }
            if only_patterns_spec(args) {
                assert forall|i: int| 3 <= i < tokens.len() implies (#[trigger] tokens[i]).len()
                    == 0 || tokens[i][0] != '-' by {
                    assert(args[i - 2] == tokens[i]);
                    assert(!occurs_at(args[i - 2], "-"@, 0));
                }
            }
        }
    }
}

/// Text without quotes and backslashes leaves nothing quoted.
proof fn lemma_unquoted(s: Seq<char>)
    requires
        forall|i: int| 0 <= i < s.len() ==> #[trigger] s[i] != '\'' && s[i] != '"' && s[i] != '\\',
    ensures
        quoting_after(s) == Quoting::Plain,
    decreases s.len(),
{
    if s.len() > 0 {
        assert(s[s.len() - 1] != '\\');
        lemma_unquoted(s.drop_last());
    }
}

/// A command list, a background job, a redirection, a conditional or a line break outside quotes
/// needs approval; a command substitution or a line break needs it within quotes too.
pub proof fn law_operators_need_approval(command: Seq<char>, i: int)
    requires
        0 <= i < trim_spec(command).len(),
        ({
            let s = trim_spec(command);
            let next_is = |c: char| i + 1 < s.len() && s[i + 1] == c;
            let unquoted = forall|j: int|
                0 <= j < i ==> #[trigger] s[j] != '\'' && s[j] != '"' && s[j] != '\\';
            let unescaped = i == 0 || s[i - 1] != '\\';
            ||| unquoted && (s[i] == ';' || s[i] == '&' || s[i] == '>' || s[i] == '<')
            ||| unquoted && s[i] == '|' && next_is('|')
            ||| unescaped && (s[i] == '`' || s[i] == '$' && next_is('('))
            ||| s[i] == '\n' || s[i] == '\r'
        }),
    ensures
        requires_approval_spec(command),
{
    let s = trim_spec(command);
    let before = s.take(i);
    if forall|j: int| 0 <= j < i ==> #[trigger] s[j] != '\'' && s[j] != '"' && s[j] != '\\' {
        assert forall|j: int| 0 <= j < before.len() implies #[trigger] before[j] != '\''
            && before[j] != '"' && before[j] != '\\' by {
            assert(s[j] != '\'');
        }
        lemma_unquoted(before);
    }
    if i > 0 {
        assert(before.last() == s[i - 1]);
    }
    assert(breaks_at(s, i));
    law_compound_commands_need_approval(command, i);
}

/// A command whose only quote is never closed needs approval, and so does one that ends in a
/// backslash which nothing quotes.
pub proof fn law_open_quotes_need_approval(command: Seq<char>, i: int)
    requires
        0 <= i < trim_spec(command).len(),
        forall|j: int|
            0 <= j < trim_spec(command).len() && j != i ==> #[trigger] trim_spec(command)[j] != '\''
                && trim_spec(command)[j] != '"' && trim_spec(command)[j] != '\\',
        ({
            let s = trim_spec(command);
            s[i] == '\'' || s[i] == '"' || s[i] == '\\' && i == s.len() - 1
        }),
    ensures
        requires_approval_spec(command),
{
    lemma_open_quote(trim_spec(command), i);
}

proof fn lemma_open_quote(s: Seq<char>, i: int)
    requires
        0 <= i < s.len(),
        forall|j: int|
            0 <= j < s.len() && j != i ==> #[trigger] s[j] != '\'' && s[j] != '"' && s[j] != '\\',
        s[i] == '\'' || s[i] == '"' || s[i] == '\\' && i == s.len() - 1,
    ensures
        s[i] == '\'' ==> quoting_after(s) == Quoting::Single,
        s[i] == '"' ==> quoting_after(s) == Quoting::Double,
        s[i] == '\\' ==> quoting_after(s) == Quoting::PlainEscape,
    decreases s.len(),
{
    let front = s.drop_last();
    if i == s.len() - 1 {
        assert forall|j: int| 0 <= j < front.len() implies #[trigger] front[j] != '\'' && front[j]
            != '"' && front[j] != '\\' by {
            assert(s[j] != '\'');
        }
        lemma_unquoted(front);
    } else {
        assert(s[s.len() - 1] != '\'');
        assert forall|j: int| 0 <= j < front.len() && j != i implies #[trigger] front[j] != '\''
            && front[j] != '"' && front[j] != '\\' by {
            assert(s[j] != '\'');
        }
        lemma_open_quote(front, i);
    }
}

/// Splitting a pipeline loses nothing: its parts, with a pipe character between them, are the
/// command.
pub proof fn law_pieces_are_the_command(s: Seq<char>)
    ensures
        pieces_spec(s).len() >= 1,
        join_spec(pieces_spec(s), "|"@) == s,
    decreases s.len(),
{
    reveal_strlit("|");
    assert("|"@ =~= seq!['|']);
    if s.len() == 0 {
        assert(pieces_spec(s).drop_last() =~= Seq::empty());
        assert(join_spec(pieces_spec(s), "|"@) =~= s);
    } else {
        let before = pieces_spec(s.drop_last());
        law_pieces_are_the_command(s.drop_last());
        let after = pieces_spec(s);
        if s.last() == '|' && quoting_after(s.drop_last()) == Quoting::Plain {
            assert(after.drop_last() =~= before);
            assert(join_spec(after, "|"@) =~= s);
        } else {
            assert(after.drop_last() =~= before.drop_last());
            assert(after.last() == before.last().push(s.last()));
            if before.len() == 1 {
                assert(join_spec(after, "|"@) == before[0].push(s.last()));
            } else {
                let head = join_spec(before.drop_last(), "|"@) + "|"@;
                assert(join_spec(before, "|"@) == head + before.last());
                assert(head + before.last().push(s.last()) =~= (head + before.last()).push(
                    s.last(),
                ));
            }
            assert(s.drop_last().push(s.last()) =~= s);
        }
    }
}

/// Whether a text is a single command of characters that mean only themselves: no quote, no
/// backslash, no operator, no white space at its ends.
pub open spec fn is_simple_command(s: Seq<char>) -> bool {
    &&& s.len() > 0
    &&& !is_white_space_spec(s[0])
    &&& !is_white_space_spec(s.last())
    &&& forall|i: int|
        0 <= i < s.len() ==> #[trigger] s[i] != '\'' && s[i] != '"' && s[i] != '\\' && s[i] != ';'
            && s[i] != '&' && s[i] != '>' && s[i] != '<' && s[i] != '|' && s[i] != '`' && s[i] != '$'
            && s[i] != '\n' && s[i] != '\r'
}

proof fn lemma_simple_command(s: Seq<char>)
    requires
        is_simple_command(s),
    ensures
        trim_spec(s) == s,
        quoting_after(s) == Quoting::Plain,
        forall|i: int| !breaks_at(s, i),
        pieces_spec(s) == seq![s],
{
    assert(trim_spec(s) == s);
    lemma_unquoted(s);
    assert forall|i: int| !breaks_at(s, i) by {
        if 0 <= i < s.len() {
            assert(s[i] != ';');
            let before = s.take(i);
            assert forall|j: int| 0 <= j < before.len() implies #[trigger] before[j] != '\''
                && before[j] != '"' && before[j] != '\\' by {
                assert(s[j] != '\'');
            }
            lemma_unquoted(before);
        }
    }
    if s.contains('|') {
        let i = choose|i: int| 0 <= i < s.len() && s[i] == '|';
        assert(s[i] != '|');
    }
    lemma_one_piece(s);
}

/// A single command needs approval exactly where its words are not those of a command that only
/// reads.
pub proof fn law_simple_command(s: Seq<char>)
    requires
        is_simple_command(s),
    ensures
        requires_approval_spec(s) == !words_read(shell_words_spec(s)),
{
    lemma_simple_command(s);
    assert(is_pipeline(s)) by {
        assert(pieces_spec(s)[0] == s);
    }
    let segments = pipeline_spec(s).unwrap();
    assert(segments =~= seq![s]);
    assert(segments_read(segments) == words_read(shell_words_spec(segments[0])));
}

/// A pipeline of two commands runs without approval exactly where each of the two would.
pub proof fn law_both_ends_of_a_pipe(a: Seq<char>, b: Seq<char>)
    requires
        is_simple_command(a),
        is_simple_command(b),
    ensures
        requires_approval_spec(a + seq!['|'] + b) == (requires_approval_spec(a)
            || requires_approval_spec(b)),
{
    let s = a + seq!['|'] + b;
    law_simple_command(a);
    law_simple_command(b);
    lemma_simple_command(a);
    lemma_simple_command(b);
    assert(s[0] == a[0] && s.last() == b.last());
    assert(trim_spec(s) == s);
    assert forall|i: int| 0 <= i < s.len() implies #[trigger] s[i] != '\'' && s[i] != '"' && s[i]
        != '\\' && s[i] != ';' && s[i] != '&' && s[i] != '>' && s[i] != '<' && s[i] != '`' && s[i]
        != '$' && s[i] != '\n' && s[i] != '\r' && (s[i] == '|' ==> i == a.len()) by {
        if i < a.len() {
            assert(s[i] == a[i]);
        } else if i > a.len() {
            assert(s[i] == b[i - a.len() - 1]);
        }
    }
    lemma_unquoted(s);
    assert forall|i: int| !breaks_at(s, i) by {
        if 0 <= i < s.len() {
            assert(s[i] != ';');
            let before = s.take(i);
            assert forall|j: int| 0 <= j < before.len() implies #[trigger] before[j] != '\''
                && before[j] != '"' && before[j] != '\\' by {
                assert(s[j] != '\'');
            }
            lemma_unquoted(before);
            if s[i] == '|' {
                assert(s[i + 1] != '|');
            }
        }
    }
    lemma_two_pieces(a, b);
    assert(is_pipeline(s)) by {
        assert(pieces_spec(s)[0] == a && pieces_spec(s)[1] == b);
    }
    let segments = pipeline_spec(s).unwrap();
    assert(segments =~= seq![a, b]);
    assert(segments[0] == a && segments[1] == b);
}

proof fn lemma_two_pieces(a: Seq<char>, b: Seq<char>)
    requires
        pieces_spec(a) == seq![a],
        quoting_after(a) == Quoting::Plain,
        forall|i: int| 0 <= i < b.len() ==> #[trigger] b[i] != '|',
    ensures
        pieces_spec(a + seq!['|'] + b) == seq![a, b],
    decreases b.len(),
{
    let s = a + seq!['|'] + b;
    if b.len() == 0 {
        assert(s.drop_last() =~= a);
        assert(b =~= Seq::empty());
        assert(pieces_spec(s) == seq![a].push(Seq::<char>::empty()));
        assert(seq![a].push(b) =~= seq![a, b]);
    } else {
        let front = b.drop_last();
        assert forall|i: int| 0 <= i < front.len() implies #[trigger] front[i] != '|' by {
            assert(b[i] != '|');
        }
        lemma_two_pieces(a, front);
        assert(s.drop_last() =~= a + seq!['|'] + front);
        assert(b[b.len() - 1] != '|');
        assert(s.last() == b.last());
        assert(front.push(b.last()) =~= b);
        let before = seq![a, front];
        assert(pieces_spec(s.drop_last()) == before);
        assert(pieces_spec(s) == before.drop_last().push(before.last().push(b.last())));
        assert(before.drop_last() =~= seq![a]);
        assert(seq![a].push(b) =~= seq![a, b]);
    }
}

/// The user is asked about a command with its own text, cut behind sixty characters, and exactly
/// where it needs approval.
pub proof fn law_question_shows_the_command(command: Seq<char>)
    requires
        trim_spec(command).len() > 0,
    ensures
        shell_exec_spec(command) is Some == requires_approval_spec(command),
        shell_exec_spec(command) matches Some(line) ==> line == "shell: "@ + (if command.len() <= 60 {
            command
        } else {
            command.take(60)
        }),
{
    if command.len() <= 60 {
        assert(take_spec(command, 60) =~= command);
    }
}

/// A pipeline with an empty command in it needs approval: in front of the first pipe character,
/// behind the last, or between two of them.
pub proof fn law_empty_commands_need_approval(command: Seq<char>, i: int)
    requires
        0 <= i < pieces_spec(trim_spec(command)).len(),
        is_blank(pieces_spec(trim_spec(command))[i]),
    ensures
        requires_approval_spec(command),
{
    let s = trim_spec(command);
    let piece = pieces_spec(s)[i];
    let none = Seq::<char>::empty();
    law_trim_takes_white_space(piece, none, none);
    assert(piece + none + none =~= piece);
    assert(trim_spec(piece).len() == 0);
    assert(!is_pipeline(s));
}

/// An operator between quotes is text: a command that ends in a quoted argument is one command,
/// whatever stands between its quotes but a quote, a backslash, a backtick, a dollar sign and a
/// line break.
pub proof fn law_quoted_operators_are_text(command: Seq<char>, quote: char, text: Seq<char>)
    requires
        is_simple_command(command),
        quote == '\'' || quote == '"',
        forall|i: int|
            0 <= i < text.len() ==> #[trigger] text[i] != '\'' && text[i] != '"' && text[i] != '\\'
                && text[i] != '`' && text[i] != '$' && text[i] != '\n' && text[i] != '\r',
    ensures
        ({
            let s = command + seq![quote] + text + seq![quote];
            pipeline_spec(s) == Some(seq![s])
        }),
{
    let s = command + seq![quote] + text + seq![quote];
    let n = command.len() as int;
    lemma_simple_command(command);
    let q = if quote == '\'' {
        Quoting::Single
    } else {
        Quoting::Double
    };
    lemma_within_quotes(command, quote, text);
    let open = command + seq![quote] + text;
    assert(s.drop_last() =~= open);
    assert(s =~= open.push(quote));
    assert(quoting_after(s) == Quoting::Plain);
    assert forall|i: int| !breaks_at(s, i) by {
        if 0 <= i < s.len() {
            if i < n {
                assert(!breaks_at(command, i));
                assert(s.take(i) =~= command.take(i));
                assert(command[i] != '$' && command[i] != '|');
            } else if i == n {
                assert(s.take(i) =~= command);
            } else if i < s.len() - 1 {
                let part = text.take(i - n - 1);
                assert(s.take(i) =~= command + seq![quote] + part);
                assert forall|j: int| 0 <= j < part.len() implies #[trigger] part[j] != '\''
                    && part[j] != '"' && part[j] != '\\' by {
                    assert(text[j] != '\'');
                }
                lemma_quoting_within(command, quote, part);
                assert(s[i] == text[i - n - 1]);
            } else {
                assert(s.take(i) =~= open);
            }
        }
    }
    assert(pieces_spec(s) =~= seq![s]);
    let none = Seq::<char>::empty();
    law_trim_takes_white_space(none, s, none);
    assert(none + s + none =~= s);
    assert(pieces_spec(s)[0] == s);
    assert(is_pipeline(s));
    assert(pipeline_spec(s).unwrap() =~= seq![s]);
}

proof fn lemma_quoting_within(command: Seq<char>, quote: char, text: Seq<char>)
    requires
        quoting_after(command) == Quoting::Plain,
        quote == '\'' || quote == '"',
        forall|i: int|
            0 <= i < text.len() ==> #[trigger] text[i] != '\'' && text[i] != '"' && text[i] != '\\',
    ensures
        quoting_after(command + seq![quote] + text) == (if quote == '\'' {
            Quoting::Single
        } else {
            Quoting::Double
        }),
    decreases text.len(),
{
    let s = command + seq![quote] + text;
    if text.len() == 0 {
        assert(s.drop_last() =~= command);
        assert(s.last() == quote);
    } else {
        let front = text.drop_last();
        assert forall|i: int| 0 <= i < front.len() implies #[trigger] front[i] != '\'' && front[i]
            != '"' && front[i] != '\\' by {
            assert(text[i] != '\'');
        }
        lemma_quoting_within(command, quote, front);
        assert(s.drop_last() =~= command + seq![quote] + front);
        assert(s.last() == text[text.len() - 1]);
    }
}

proof fn lemma_within_quotes(command: Seq<char>, quote: char, text: Seq<char>)
    requires
        pieces_spec(command) == seq![command],
        quoting_after(command) == Quoting::Plain,
        quote == '\'' || quote == '"',
        forall|i: int|
            0 <= i < text.len() ==> #[trigger] text[i] != '\'' && text[i] != '"' && text[i] != '\\',
    ensures
        ({
            let s = command + seq![quote] + text;
            pieces_spec(s) == seq![s] && pieces_spec(s.push(quote)) == seq![s.push(quote)]
                && quoting_after(s) == (if quote == '\'' {
                Quoting::Single
            } else {
                Quoting::Double
            })
        }),
    decreases text.len(),
{
    let s = command + seq![quote] + text;
    lemma_quoting_within(command, quote, text);
    if text.len() == 0 {
        assert(s.drop_last() =~= command);
        assert(s =~= command.push(quote));
        assert(seq![command].drop_last().push(command.push(quote)) =~= seq![s]);
    } else {
        let front = text.drop_last();
        assert forall|i: int| 0 <= i < front.len() implies #[trigger] front[i] != '\'' && front[i]
            != '"' && front[i] != '\\' by {
            assert(text[i] != '\'');
        }
        let shorter = command + seq![quote] + front;
        lemma_within_quotes(command, quote, front);
        assert(s.drop_last() =~= shorter);
        assert(s =~= shorter.push(text.last()));
        assert(seq![shorter].drop_last().push(shorter.push(text.last())) =~= seq![s]);
    }
    assert(s.push(quote).drop_last() =~= s);
    assert(seq![s].drop_last().push(s.push(quote)) =~= seq![s.push(quote)]);
}

} // verus!
