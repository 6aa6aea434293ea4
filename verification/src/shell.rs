//! Shell commands with placeholders for the file that is shown.

use vstd::prelude::*;
use crate::paths::{parent, path_below, path_parent, relative_path, shown_path};
use crate::text::{chars_of, copy_of};
use crate::word::{alphanumeric, is_alphanumeric};

verus! {

/// The first `n` characters of a text, as they stand between single quotes: a quote ends the
/// quotation, stands for itself, and starts it again.
pub open spec fn escaped(text: Seq<char>, n: int) -> Seq<char>
    decreases n,
{
    if n <= 0 {
        Seq::empty()
    } else {
        escaped(text, n - 1) + if text[n - 1] == '\'' {
            seq!['\'', '\\', '\'', '\'']
        } else {
            seq![text[n - 1]]
        }
    }
}

/// A text in single quotes.
pub open spec fn quoted(text: Seq<char>) -> Seq<char> {
    seq!['\''] + escaped(text, text.len() as int) + seq!['\'']
}

/// Wraps a string in single quotes for safe embedding in a `/bin/sh -c` command string.
pub fn sh_quote(s: &str) -> (r: String)
    ensures
        r@ == quoted(s@),
{
    let chars = chars_of(s);
    let mut out = String::new();
    out.push('\'');
    let mut i: usize = 0;
    assert(out@ =~= seq!['\''] + escaped(s@, 0));
    while i < chars.len()
        invariant
            i <= chars@.len(),
            chars@ == s@,
            out@ == seq!['\''] + escaped(s@, i as int),
        decreases chars@.len() - i,
    {
        let ghost before = out@;
        if chars[i] == '\'' {
            out.push('\'');
            out.push('\\');
            out.push('\'');
            out.push('\'');
            assert(out@ =~= before + seq!['\'', '\\', '\'', '\'']);
        } else {
            out.push(chars[i]);
            assert(out@ =~= before + seq![chars@[i as int]]);
        }
        i += 1;
        assert(out@ =~= seq!['\''] + escaped(s@, i as int));
    }
    out.push('\'');
    assert(out@ =~= quoted(s@));
    out
}

/// What a shell that reads within single quotes up to the closing quote makes of a text from
/// place `i` on, where a quote is followed by a quote in a backslash and another quotation.
pub open spec fn read_quoted(text: Seq<char>, i: int) -> Seq<char>
    decreases text.len() - i,
{
    if i < 0 || i >= text.len() {
        Seq::empty()
    } else if text[i] != '\'' {
        seq![text[i]] + read_quoted(text, i + 1)
    } else if i + 3 < text.len() && text[i + 1] == '\\' && text[i + 2] == '\'' && text[i + 3]
        == '\'' {
        seq!['\''] + read_quoted(text, i + 4)
    } else {
        Seq::empty()
    }
}

/// What a shell reads of a quoted text is the text.
pub proof fn law_quoted_text_reads_back(text: Seq<char>)
    ensures
        read_quoted(quoted(text), 1) == text,
{
    lemma_reads_back(text, 0);
    assert(text.skip(0) =~= text);
}

proof fn lemma_reads_back(text: Seq<char>, i: int)
    requires
        0 <= i <= text.len(),
    ensures
        read_quoted(quoted(text), 1int + escaped(text, i).len()) == text.skip(i),
    decreases text.len() - i,
{
    let all = quoted(text);
    let at = 1int + escaped(text, i).len();
    lemma_escaped_prefix(text, i, text.len() as int);
    if i == text.len() {
        assert(all[at] == '\'');
        assert(text.skip(i) =~= Seq::<char>::empty());
    } else {
        lemma_escaped_prefix(text, i + 1, text.len() as int);
        let next = escaped(text, i + 1);
        assert(next.len() <= escaped(text, text.len() as int).len());
        lemma_reads_back(text, i + 1);
        assert forall|k: int| escaped(text, i).len() <= k < next.len() implies #[trigger] all[1
            + k] == next[k] by {
            assert(escaped(text, text.len() as int)[k] == next[k]);
        }
        assert(text.skip(i) =~= seq![text[i]] + text.skip(i + 1));
        let len = escaped(text, i).len() as int;
        if text[i] == '\'' {
            assert(all[1 + len] == next[len]);
            assert(all[1 + (len + 1)] == next[len + 1]);
            assert(all[1 + (len + 2)] == next[len + 2]);
            assert(all[1 + (len + 3)] == next[len + 3]);
        } else {
            assert(all[1 + len] == next[len]);
        }
    }
}

proof fn lemma_escaped_prefix(text: Seq<char>, i: int, n: int)
    requires
        0 <= i <= n <= text.len(),
    ensures
        escaped(text, i).len() <= escaped(text, n).len(),
        forall|k: int|
            0 <= k < escaped(text, i).len() ==> #[trigger] escaped(text, n)[k] == escaped(text, i)[k],
    decreases n - i,
{
    if i < n {
        lemma_escaped_prefix(text, i, n - 1);
        assert forall|k: int| 0 <= k < escaped(text, i).len() implies #[trigger] escaped(text, n)[k]
            == escaped(text, i)[k] by {
            assert(escaped(text, n)[k] == escaped(text, n - 1)[k]);
        }
    }
}

/// What a placeholder stands for.
#[derive(Clone, Copy, Debug, PartialEq, Eq, Structural)]
pub enum Placeholder {
    /// `%crate`: the directory of the crate.
    Crate,
    /// `%repo`: the directory of the repository.
    Repo,
    /// `%c`: the directory of the crate.
    ShortCrate,
    /// `%dir`: the directory of the file.
    Dir,
    /// `%r`: the directory of the repository.
    ShortRepo,
    /// `%d`: the directory of the file.
    ShortDir,
    /// `%`: the file.
    File,
}

/// The places that placeholders stand for.
#[verifier::ext_equal]
pub struct Places {
    pub file: Seq<char>,
    pub dir: Seq<char>,
    pub crate_root: Option<Seq<char>>,
    pub repo_root: Option<Seq<char>>,
}

/// Whether no letter, number or `_` stands at place `i`.
pub open spec fn word_ends_at(text: Seq<char>, i: int) -> bool {
    !(i < text.len() && (alphanumeric(text[i]) || text[i] == '_'))
}

/// Whether the characters of a word stand at place `i`.
pub open spec fn stands_at(text: Seq<char>, i: int, word: Seq<char>) -> bool {
    i + word.len() <= text.len() && text.subrange(i, i + word.len()) == word
}

/// Whether a word stands at place `i`, and ends there. `ends` says at which places no letter,
/// number or `_` stands.
pub open spec fn word_at(text: Seq<char>, ends: Seq<bool>, i: int, word: Seq<char>) -> bool {
    stands_at(text, i, word) && ends[i + word.len()]
}

/// The placeholder whose name stands at place `i`, behind a `%`.
pub open spec fn placeholder_at(text: Seq<char>, ends: Seq<bool>, i: int) -> Placeholder {
    if word_at(text, ends, i, "crate"@) {
        Placeholder::Crate
    } else if word_at(text, ends, i, "repo"@) {
        Placeholder::Repo
    } else if word_at(text, ends, i, "c"@) {
        Placeholder::ShortCrate
    } else if word_at(text, ends, i, "dir"@) {
        Placeholder::Dir
    } else if word_at(text, ends, i, "r"@) {
        Placeholder::ShortRepo
    } else if word_at(text, ends, i, "d"@) {
        Placeholder::ShortDir
    } else {
        Placeholder::File
    }
}

impl Placeholder {
    /// How many characters the name of the placeholder has.
    pub open spec fn name_len(self) -> int {
        match self {
            Placeholder::Crate => "crate"@.len() as int,
            Placeholder::Repo => "repo"@.len() as int,
            Placeholder::ShortCrate => "c"@.len() as int,
            Placeholder::Dir => "dir"@.len() as int,
            Placeholder::ShortRepo => "r"@.len() as int,
            Placeholder::ShortDir => "d"@.len() as int,
            Placeholder::File => 0,
        }
    }

    /// The place that the placeholder stands for, or what is said where there is none.
    pub open spec fn place(self, p: Places) -> Result<Seq<char>, Seq<char>> {
        match self {
            Placeholder::Crate => match p.crate_root {
                Some(dir) => Ok(dir),
                None => Err("no Cargo.toml found (needed by %crate)"@),
            },
            Placeholder::Repo => match p.repo_root {
                Some(dir) => Ok(dir),
                None => Err("no .git found (needed by %repo)"@),
            },
            Placeholder::ShortCrate => match p.crate_root {
                Some(dir) => Ok(dir),
                None => Err("no Cargo.toml found (needed by %c)"@),
            },
            Placeholder::ShortRepo => match p.repo_root {
                Some(dir) => Ok(dir),
                None => Err("no .git found (needed by %r)"@),
            },
            Placeholder::Dir | Placeholder::ShortDir => Ok(p.dir),
            Placeholder::File => Ok(p.file),
        }
    }
}

/// The same result with a text in front.
pub open spec fn behind(front: Seq<char>, r: Result<Seq<char>, Seq<char>>) -> Result<
    Seq<char>,
    Seq<char>,
> {
    match r {
        Ok(rest) => Ok(front + rest),
        Err(e) => Err(e),
    }
}

/// A command from place `i` on, with every placeholder replaced by the place that it stands for,
/// in quotes; or what is said of the first placeholder without a place.
pub open spec fn expanded(cmd: Seq<char>, ends: Seq<bool>, i: int, p: Places) -> Result<
    Seq<char>,
    Seq<char>,
>
    decreases cmd.len() - i,
{
    if i < 0 || i >= cmd.len() {
        Ok(Seq::empty())
    } else if cmd[i] != '%' {
        behind(seq![cmd[i]], expanded(cmd, ends, i + 1, p))
    } else {
        let h = placeholder_at(cmd, ends, i + 1);
        match h.place(p) {
            Ok(place) => behind(quoted(place), expanded(cmd, ends, i + 1 + h.name_len(), p)),
            Err(e) => Err(e),
        }
    }
}

/// At which places of a text no letter, number or `_` stands, the end among them.
pub open spec fn word_ends(text: Seq<char>) -> Seq<bool> {
    Seq::new(text.len() + 1, |i: int| word_ends_at(text, i))
}

/// The places for a file below a root.
pub open spec fn places_of(
    file: Seq<char>,
    root: Seq<char>,
    crate_root: Option<Seq<char>>,
    repo_root: Option<Seq<char>>,
) -> Places {
    Places {
        file: shown_path(file, root),
        dir: shown_path(
            match path_parent(file) {
                Some(dir) => dir,
                None => file,
            },
            root,
        ),
        crate_root,
        repo_root,
    }
}

/// Whether no letter, number or `_` stands at place `i`: there, a word that came before ends.
pub fn is_word_end(chars: &Vec<char>, i: usize) -> (r: bool)
    ensures
        r == word_ends_at(chars@, i as int),
{
    !(i < chars.len() && (is_alphanumeric(chars[i]) || chars[i] == '_'))
}

/// Whether a word stands at place `i`, and ends there.
fn has_word(chars: &Vec<char>, ends: &Vec<bool>, i: usize, word: &str) -> (r: bool)
    requires
        i <= chars@.len(),
        ends@.len() == chars@.len() + 1,
    ensures
        r == word_at(chars@, ends@, i as int, word@),
        r ==> i + word@.len() <= chars@.len(),
{
    let name = chars_of(word);
    if name.len() > chars.len() - i {
        return false;
    }
    let mut k: usize = 0;
    while k < name.len()
        invariant
            k <= name@.len(),
            name@ == word@,
            i + name@.len() <= chars@.len() <= usize::MAX,
            forall|j: int| 0 <= j < k ==> #[trigger] chars@[i + j] == name@[j],
        decreases name@.len() - k,
    {
        if chars[i + k] != name[k] {
            proof {
                let part = chars@.subrange(i as int, i + word@.len());
                assert(part[k as int] != word@[k as int]);
            }
            return false;
        }
        k += 1;
    }
    proof {
        let part = chars@.subrange(i as int, i + word@.len());
        assert forall|j: int| 0 <= j < part.len() implies part[j] == word@[j] by {
            assert(chars@[i + j] == name@[j]);
        }
        assert(part =~= word@);
    }
    ends[i + name.len()]
}

/// The placeholder whose name stands at place `i`, and how many characters its name has.
fn find_placeholder(chars: &Vec<char>, ends: &Vec<bool>, i: usize) -> (r: (Placeholder, usize))
    requires
        i <= chars@.len(),
        ends@.len() == chars@.len() + 1,
    ensures
        r.0 == placeholder_at(chars@, ends@, i as int),
        r.1 == r.0.name_len(),
        i + r.1 <= chars@.len(),
{
    proof {
        reveal_strlit("crate");
        reveal_strlit("repo");
        reveal_strlit("c");
        reveal_strlit("dir");
        reveal_strlit("r");
        reveal_strlit("d");
    }
    if has_word(chars, ends, i, "crate") {
        (Placeholder::Crate, 5)
    } else if has_word(chars, ends, i, "repo") {
        (Placeholder::Repo, 4)
    } else if has_word(chars, ends, i, "c") {
        (Placeholder::ShortCrate, 1)
    } else if has_word(chars, ends, i, "dir") {
        (Placeholder::Dir, 3)
    } else if has_word(chars, ends, i, "r") {
        (Placeholder::ShortRepo, 1)
    } else if has_word(chars, ends, i, "d") {
        (Placeholder::ShortDir, 1)
    } else {
        (Placeholder::File, 0)
    }
}

/// A text that may be missing.
pub open spec fn optional_str(s: Option<&str>) -> Option<Seq<char>> {
    match s {
        Some(t) => Some(t@),
        None => None,
    }
}

/// A text or what is said in its place.
pub open spec fn result_text(r: Result<String, String>) -> Result<Seq<char>, Seq<char>> {
    match r {
        Ok(t) => Ok(t@),
        Err(e) => Err(e@),
    }
}

/// The place that a placeholder stands for, or what is said where there is none.
fn place_of<'a>(
    h: Placeholder,
    file: &'a str,
    dir: &'a str,
    crate_root: Option<&'a str>,
    repo_root: Option<&'a str>,
) -> (r: Result<&'a str, &'static str>)
    ensures
        match r {
            Ok(t) => h.place(
                Places {
                    file: file@,
                    dir: dir@,
                    crate_root: optional_str(crate_root),
                    repo_root: optional_str(repo_root),
                },
            ) == Ok::<Seq<char>, Seq<char>>(t@),
            Err(e) => h.place(
                Places {
                    file: file@,
                    dir: dir@,
                    crate_root: optional_str(crate_root),
                    repo_root: optional_str(repo_root),
                },
            ) == Err::<Seq<char>, Seq<char>>(e@),
        },
{
    match h {
        Placeholder::Crate => match crate_root {
            Some(dir) => Ok(dir),
            None => Err("no Cargo.toml found (needed by %crate)"),
        },
        Placeholder::Repo => match repo_root {
            Some(dir) => Ok(dir),
            None => Err("no .git found (needed by %repo)"),
        },
        Placeholder::ShortCrate => match crate_root {
            Some(dir) => Ok(dir),
            None => Err("no Cargo.toml found (needed by %c)"),
        },
        Placeholder::ShortRepo => match repo_root {
            Some(dir) => Ok(dir),
            None => Err("no .git found (needed by %r)"),
        },
        Placeholder::Dir | Placeholder::ShortDir => Ok(dir),
        Placeholder::File => Ok(file),
    }
}

/// Replaces the placeholders in a command by the places that they stand for, in quotes. `ends`
/// says at which places no letter, number or `_` stands.
pub fn expand_with(
    cmd: &str,
    ends: &Vec<bool>,
    file: &str,
    dir: &str,
    crate_root: Option<&str>,
    repo_root: Option<&str>,
) -> (r: Result<String, String>)
    requires
        ends@.len() == cmd@.len() + 1,
    ensures
        result_text(r) == expanded(
            cmd@,
            ends@,
            0,
            Places {
                file: file@,
                dir: dir@,
                crate_root: optional_str(crate_root),
                repo_root: optional_str(repo_root),
            },
        ),
{
    let chars = chars_of(cmd);
    let ghost p = Places {
        file: file@,
        dir: dir@,
        crate_root: optional_str(crate_root),
        repo_root: optional_str(repo_root),
    };
    let mut out = String::new();
    let mut i: usize = 0;
    assert(expanded(cmd@, ends@, 0, p) == behind(out@, expanded(cmd@, ends@, 0, p))) by {
        match expanded(cmd@, ends@, 0, p) {
            Ok(t) => {
                assert(out@ + t =~= t);
            },
            Err(e) => {},
        }
    }
    while i < chars.len()
        invariant
            i <= chars@.len(),
            chars@ == cmd@,
            ends@.len() == cmd@.len() + 1,
            p == (Places {
                file: file@,
                dir: dir@,
                crate_root: optional_str(crate_root),
                repo_root: optional_str(repo_root),
            }),
            expanded(cmd@, ends@, 0, p) == behind(out@, expanded(cmd@, ends@, i as int, p)),
        decreases chars@.len() - i,
    {
        let ghost before = out@;
        let ghost at = i as int;
        if chars[i] != '%' {
            out.push(chars[i]);
            i += 1;
            proof {
                match expanded(cmd@, ends@, i as int, p) {
                    Ok(t) => {
                        assert(before + (seq![cmd@[at]] + t) =~= out@ + t);
                    },
                    Err(e) => {},
                }
            }
        } else {
            let (h, n) = find_placeholder(&chars, ends, i + 1);
            match place_of(h, file, dir, crate_root, repo_root) {
                Ok(place) => {
                    let text = sh_quote(place);
                    out.append(text.as_str());
                    i = i + 1 + n;
                    proof {
                        match expanded(cmd@, ends@, i as int, p) {
                            Ok(t) => {
                                assert(before + (quoted(place@) + t) =~= out@ + t);
                            },
                            Err(e) => {},
                        }
                    }
                },
                Err(msg) => {
                    return Err(copy_of(msg));
                },
            }
        }
    }
    assert(out@ + Seq::<char>::empty() =~= out@);
    Ok(out)
}

/// Expands `%`, `%d`/`%dir`, `%c`/`%crate`, and `%r`/`%repo` placeholders in `cmd`.
///
/// - `%`             stands for the path of `file_path` from `root` on
/// - `%d` / `%dir`   stands for the directory of `file_path`, from `root` on
/// - `%c` / `%crate` stands for `crate_root`, the nearest directory with a `Cargo.toml`
/// - `%r` / `%repo`  stands for `repo_root`, the nearest directory with a `.git`
///
/// Each is put in quotes. Returns what is to be said if a placeholder is used but its directory
/// was not found.
pub fn expand_placeholders(
    cmd: &str,
    file_path: &str,
    root: &str,
    crate_root: Option<&str>,
    repo_root: Option<&str>,
) -> (r: Result<String, String>)
    ensures
        result_text(r) == expanded(
            cmd@,
            word_ends(cmd@),
            0,
            places_of(file_path@, root@, optional_str(crate_root), optional_str(repo_root)),
        ),
{
    let chars = chars_of(cmd);
    let mut ends: Vec<bool> = Vec::new();
    let mut i: usize = 0;
    while i < chars.len()
        invariant
            i <= chars@.len(),
            chars@ == cmd@,
            ends@ == word_ends(cmd@).take(i as int),
        decreases chars@.len() - i,
    {
        ends.push(is_word_end(&chars, i));
        i += 1;
        assert(ends@ =~= word_ends(cmd@).take(i as int));
    }
    ends.push(true);
    assert(ends@ =~= word_ends(cmd@));
    let file = relative_path(file_path, root);
    let dir = match parent(file_path) {
        Some(dir) => relative_path(dir.as_str(), root),
        None => relative_path(file_path, root),
    };
    expand_with(cmd, &ends, file.as_str(), dir.as_str(), crate_root, repo_root)
}

/// A command without a `%` is taken as it is.
pub proof fn law_plain_command_is_kept(cmd: Seq<char>, ends: Seq<bool>, i: int, p: Places)
    requires
        0 <= i <= cmd.len(),
        forall|k: int| 0 <= k < cmd.len() ==> #[trigger] cmd[k] != '%',
    ensures
        expanded(cmd, ends, i, p) == Ok::<Seq<char>, Seq<char>>(cmd.skip(i)),
    decreases cmd.len() - i,
{
    if i < cmd.len() {
        law_plain_command_is_kept(cmd, ends, i + 1, p);
        assert(cmd.skip(i) =~= seq![cmd[i]] + cmd.skip(i + 1));
    } else {
        assert(cmd.skip(i) =~= Seq::<char>::empty());
    }
}

/// What a command becomes when it is run on a file.
pub open spec fn run_on(
    cmd: Seq<char>,
    file: Seq<char>,
    root: Seq<char>,
    crate_root: Option<Seq<char>>,
    repo_root: Option<Seq<char>>,
) -> Result<Seq<char>, Seq<char>> {
    expanded(cmd, word_ends(cmd), 0, places_of(file, root, crate_root, repo_root))
}

/// Whether a command is run with a text in place of a name behind a `%`, and with what stands
/// before and behind it handled on its own.
pub open spec fn stands_for(
    name: Seq<char>,
    text: Seq<char>,
    front: Seq<char>,
    back: Seq<char>,
    file: Seq<char>,
    root: Seq<char>,
    crate_root: Option<Seq<char>>,
    repo_root: Option<Seq<char>>,
) -> bool {
    run_on(front + name + back, file, root, crate_root, repo_root) == match run_on(
        back,
        file,
        root,
        crate_root,
        repo_root,
    ) {
        Ok(rest) => Ok::<Seq<char>, Seq<char>>(front + quoted(text) + rest),
        Err(e) => Err(e),
    }
}

/// What stands before a place does not change which words stand behind it.
proof fn lemma_word_behind(front: Seq<char>, back: Seq<char>, i: int, word: Seq<char>)
    requires
        0 <= i,
    ensures
        word_at(front + back, word_ends(front + back), front.len() + i, word) == word_at(
            back,
            word_ends(back),
            i,
            word,
        ),
{
    let all = front + back;
    if i + word.len() <= back.len() {
        assert(all.subrange(front.len() + i, front.len() + i + word.len()) =~= back.subrange(
            i,
            i + word.len(),
        ));
        let end = i + word.len();
        assert(word_ends(all)[front.len() + end] == word_ends(back)[end]);
    }
}

/// What stands before a place does not change what becomes of the rest.
proof fn lemma_expanded_behind(front: Seq<char>, back: Seq<char>, i: int, p: Places)
    requires
        0 <= i,
    ensures
        expanded(front + back, word_ends(front + back), front.len() + i, p) == expanded(
            back,
            word_ends(back),
            i,
            p,
        ),
    decreases back.len() - i,
{
    let all = front + back;
    if i < back.len() {
        assert(all[front.len() + i] == back[i]);
        if back[i] != '%' {
            lemma_expanded_behind(front, back, i + 1, p);
        } else {
            lemma_word_behind(front, back, i + 1, "crate"@);
            lemma_word_behind(front, back, i + 1, "repo"@);
            lemma_word_behind(front, back, i + 1, "c"@);
            lemma_word_behind(front, back, i + 1, "dir"@);
            lemma_word_behind(front, back, i + 1, "r"@);
            lemma_word_behind(front, back, i + 1, "d"@);
            let h = placeholder_at(back, word_ends(back), i + 1);
            assert(front.len() + i + 1 == front.len() + (i + 1));
            assert(placeholder_at(all, word_ends(all), front.len() + i + 1) == h);
            lemma_expanded_behind(front, back, i + 1 + h.name_len(), p);
        }
    }
}

/// What holds no `%` stands unchanged before what becomes of the rest.
proof fn lemma_plain_front(front: Seq<char>, back: Seq<char>, i: int, p: Places)
    requires
        0 <= i <= front.len(),
        forall|k: int| 0 <= k < front.len() ==> #[trigger] front[k] != '%',
    ensures
        expanded(front + back, word_ends(front + back), i, p) == behind(
            front.skip(i),
            expanded(back, word_ends(back), 0, p),
        ),
    decreases front.len() - i,
{
    let all = front + back;
    let rest = expanded(back, word_ends(back), 0, p);
    if i == front.len() {
        lemma_expanded_behind(front, back, 0, p);
        if let Ok(t) = rest {
            assert(front.skip(i) + t =~= t);
        }
    } else {
        lemma_plain_front(front, back, i + 1, p);
        assert(all[i] == front[i]);
        if let Ok(t) = rest {
            assert(seq![front[i]] + (front.skip(i + 1) + t) =~= front.skip(i) + t);
        }
    }
}

/// Whether a text starts with no letter, number or `_`, so that a name before it ends there.
pub open spec fn ends_name(text: Seq<char>) -> bool {
    word_ends_at(text, 0) && (text.len() > 0 ==> !('a' <= text[0] <= 'z'))
}

/// A word does not stand where a text has another character.
proof fn lemma_other_character(text: Seq<char>, ends: Seq<bool>, i: int, word: Seq<char>, k: int)
    requires
        0 <= i,
        0 <= k < word.len(),
        i + k >= text.len() || text[i + k] != word[k],
    ensures
        !word_at(text, ends, i, word),
{
    if stands_at(text, i, word) {
        assert(text.subrange(i, i + word.len())[k] == word[k]);
    }
}

/// The placeholder at the start of a text is the one whose name stands there.
proof fn lemma_name_is_read(h: Placeholder, name: Seq<char>, back: Seq<char>)
    requires
        ends_name(back),
        name == match h {
            Placeholder::Crate => "crate"@,
            Placeholder::Repo => "repo"@,
            Placeholder::ShortCrate => "c"@,
            Placeholder::Dir => "dir"@,
            Placeholder::ShortRepo => "r"@,
            Placeholder::ShortDir => "d"@,
            Placeholder::File => Seq::empty(),
        },
    ensures
        ({
            let all = seq!['%'] + name + back;
            placeholder_at(all, word_ends(all), 1) == h
        }),
        h.name_len() == name.len(),
{
    reveal_strlit("crate");
    reveal_strlit("repo");
    reveal_strlit("c");
    reveal_strlit("dir");
    reveal_strlit("r");
    reveal_strlit("d");
    let all = seq!['%'] + name + back;
    let ends = word_ends(all);
    let n = name.len() as int;
    if n + 1 < all.len() {
        assert(all[n + 1] == back[0]);
    }
    assert(all.subrange(1, n + 1) =~= name);
    assert(ends[n + 1]);
    assert(stands_at(all, 1, name));
    if n > 0 {
        assert(all[1] == name[0]);
    }
    if h != Placeholder::Crate {
        lemma_other_character(
            all,
            ends,
            1,
            "crate"@,
            if h == Placeholder::ShortCrate {
                1
            } else {
                0
            },
        );
        if h != Placeholder::Repo {
            lemma_other_character(
                all,
                ends,
                1,
                "repo"@,
                if h == Placeholder::ShortRepo {
                    1
                } else {
                    0
                },
            );
            if h != Placeholder::ShortCrate {
                lemma_other_character(all, ends, 1, "c"@, 0);
                if h != Placeholder::Dir {
                    lemma_other_character(
                        all,
                        ends,
                        1,
                        "dir"@,
                        if h == Placeholder::ShortDir {
                            1
                        } else {
                            0
                        },
                    );
                    if h != Placeholder::ShortRepo {
                        lemma_other_character(all, ends, 1, "r"@, 0);
                        if h != Placeholder::ShortDir {
                            lemma_other_character(all, ends, 1, "d"@, 0);
                        }
                    }
                }
            }
        }
    }
}

/// What becomes of a command with a name behind a `%`.
proof fn lemma_name_is_replaced(
    h: Placeholder,
    name: Seq<char>,
    front: Seq<char>,
    back: Seq<char>,
    p: Places,
)
    requires
        forall|k: int| 0 <= k < front.len() ==> #[trigger] front[k] != '%',
        ends_name(back),
        name == match h {
            Placeholder::Crate => "crate"@,
            Placeholder::Repo => "repo"@,
            Placeholder::ShortCrate => "c"@,
            Placeholder::Dir => "dir"@,
            Placeholder::ShortRepo => "r"@,
            Placeholder::ShortDir => "d"@,
            Placeholder::File => Seq::empty(),
        },
    ensures
        ({
            let all = front + (seq!['%'] + name) + back;
            expanded(all, word_ends(all), 0, p) == match h.place(p) {
                Ok(place) => match expanded(back, word_ends(back), 0, p) {
                    Ok(rest) => Ok::<Seq<char>, Seq<char>>(front + quoted(place) + rest),
                    Err(e) => Err(e),
                },
                Err(e) => Err(e),
            }
        }),
{
    let mid = seq!['%'] + name;
    let tail = mid + back;
    let all = front + mid + back;
    assert(all =~= front + tail);
    assert(front.skip(0) =~= front);
    lemma_plain_front(front, tail, 0, p);
    lemma_name_is_read(h, name, back);
    assert(tail[0] == '%');
    lemma_expanded_behind(mid, back, 0, p);
    if let Ok(place) = h.place(p) {
        if let Ok(rest) = expanded(back, word_ends(back), 0, p) {
            assert(front + (quoted(place) + rest) =~= front + quoted(place) + rest);
        }
    }
}

/// `%repo` and `%r` stand for the repository, whatever the crate is, and `%crate` and `%c` for the
/// crate, whatever the repository is. Where there is none, the command is not run.
pub proof fn law_roots_stand_for_themselves(
    front: Seq<char>,
    back: Seq<char>,
    file: Seq<char>,
    root: Seq<char>,
    crate_root: Option<Seq<char>>,
    repo_root: Option<Seq<char>>,
)
    requires
        forall|k: int| 0 <= k < front.len() ==> #[trigger] front[k] != '%',
        ends_name(back),
    ensures
        repo_root matches Some(dir) ==> {
            &&& stands_for("%repo"@, dir, front, back, file, root, crate_root, repo_root)
            &&& stands_for("%r"@, dir, front, back, file, root, crate_root, repo_root)
        },
        repo_root is None ==> {
            &&& run_on(front + "%repo"@ + back, file, root, crate_root, repo_root) == Err::<
                Seq<char>,
                Seq<char>,
            >("no .git found (needed by %repo)"@)
            &&& run_on(front + "%r"@ + back, file, root, crate_root, repo_root) == Err::<
                Seq<char>,
                Seq<char>,
            >("no .git found (needed by %r)"@)
        },
        crate_root matches Some(dir) ==> {
            &&& stands_for("%crate"@, dir, front, back, file, root, crate_root, repo_root)
            &&& stands_for("%c"@, dir, front, back, file, root, crate_root, repo_root)
        },
        crate_root is None ==> {
            &&& run_on(front + "%crate"@ + back, file, root, crate_root, repo_root) == Err::<
                Seq<char>,
                Seq<char>,
            >("no Cargo.toml found (needed by %crate)"@)
            &&& run_on(front + "%c"@ + back, file, root, crate_root, repo_root) == Err::<
                Seq<char>,
                Seq<char>,
            >("no Cargo.toml found (needed by %c)"@)
        },
{
    reveal_strlit("crate");
    reveal_strlit("repo");
    reveal_strlit("c");
    reveal_strlit("r");
    reveal_strlit("%crate");
    reveal_strlit("%repo");
    reveal_strlit("%c");
    reveal_strlit("%r");
    let p = places_of(file, root, crate_root, repo_root);
    assert("%repo"@ =~= seq!['%'] + "repo"@);
    assert("%r"@ =~= seq!['%'] + "r"@);
    assert("%crate"@ =~= seq!['%'] + "crate"@);
    assert("%c"@ =~= seq!['%'] + "c"@);
    lemma_name_is_replaced(Placeholder::Repo, "repo"@, front, back, p);
    lemma_name_is_replaced(Placeholder::ShortRepo, "r"@, front, back, p);
    lemma_name_is_replaced(Placeholder::Crate, "crate"@, front, back, p);
    lemma_name_is_replaced(Placeholder::ShortCrate, "c"@, front, back, p);
}

/// `%` alone stands for the file, and `%dir` and `%d` for its directory, from the root on where
/// they lie below it.
pub proof fn law_file_stands_for_itself(
    front: Seq<char>,
    back: Seq<char>,
    file: Seq<char>,
    root: Seq<char>,
    crate_root: Option<Seq<char>>,
    repo_root: Option<Seq<char>>,
)
    requires
        forall|k: int| 0 <= k < front.len() ==> #[trigger] front[k] != '%',
        ends_name(back),
    ensures
        path_below(file, root) matches Some(rel) ==> stands_for(
            "%"@,
            rel,
            front,
            back,
            file,
            root,
            crate_root,
            repo_root,
        ),
        path_below(file, root) is None ==> stands_for(
            "%"@,
            file,
            front,
            back,
            file,
            root,
            crate_root,
            repo_root,
        ),
        path_parent(file) matches Some(dir) ==> match path_below(dir, root) {
            Some(rel) => {
                &&& stands_for("%dir"@, rel, front, back, file, root, crate_root, repo_root)
                &&& stands_for("%d"@, rel, front, back, file, root, crate_root, repo_root)
            },
            None => {
                &&& stands_for("%dir"@, dir, front, back, file, root, crate_root, repo_root)
                &&& stands_for("%d"@, dir, front, back, file, root, crate_root, repo_root)
            },
        },
{
    reveal_strlit("dir");
    reveal_strlit("d");
    reveal_strlit("%dir");
    reveal_strlit("%d");
    reveal_strlit("%");
    let p = places_of(file, root, crate_root, repo_root);
    assert("%dir"@ =~= seq!['%'] + "dir"@);
    assert("%d"@ =~= seq!['%'] + "d"@);
    assert("%"@ =~= seq!['%'] + Seq::<char>::empty());
    lemma_name_is_replaced(Placeholder::Dir, "dir"@, front, back, p);
    lemma_name_is_replaced(Placeholder::ShortDir, "d"@, front, back, p);
    lemma_name_is_replaced(Placeholder::File, Seq::empty(), front, back, p);
}

} // verus!
