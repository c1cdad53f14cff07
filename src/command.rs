use vstd::prelude::*;

verus! {

/// An external program to run: its name, its arguments, and the directory to
/// run it in (`None`: the caller's own).
#[derive(Clone, Debug)]
pub struct Invocation {
    pub program: String,
    pub args: Vec<String>,
    pub cwd: Option<String>,
}

/// An invocation as plain sequences of characters.
pub struct CommandLine {
    pub program: Seq<char>,
    pub args: Seq<Seq<char>>,
    pub cwd: Option<Seq<char>>,
}

/// The characters of an optional string.
pub open spec fn opt_view(o: Option<String>) -> Option<Seq<char>> {
    match o {
        Some(s) => Some(s@),
        None => None,
    }
}

impl View for Invocation {
    type V = CommandLine;

    open spec fn view(&self) -> CommandLine {
        CommandLine {
            program: self.program@,
            args: self.args@.map_values(|a: String| a@),
            cwd: opt_view(self.cwd),
        }
    }
}

/// `git pull`, run inside the repository at `dir`.
pub open spec fn git_pull_line(dir: Seq<char>) -> CommandLine {
    CommandLine { program: "git"@, args: seq!["pull"@], cwd: Some(dir) }
}

/// The font tool's WOFF2 compression of `file`, run where the caller runs.
pub open spec fn woff2_line(file: Seq<char>) -> CommandLine {
    CommandLine {
        program: "fonttools"@,
        args: seq!["ttLib.woff2"@, "compress"@, file],
        cwd: None,
    }
}

/// The document converter turning the HTML file `file` into CommonMark at
/// `out`.
pub open spec fn pandoc_line(file: Seq<char>, out: Seq<char>) -> CommandLine {
    CommandLine {
        program: "pandoc"@,
        args: seq![file, "-f"@, "html"@, "-t"@, "commonmark"@, "-o"@, out],
        cwd: None,
    }
}

/// Whether `pat` stands in `s` from position `i` on.
pub open spec fn occurs_at(s: Seq<char>, pat: Seq<char>, i: int) -> bool {
    0 <= i && i + pat.len() <= s.len() && s.subrange(i, i + pat.len()) == pat
}

/// `s` with the first occurrence of `pat` replaced by `rep`; `s` itself where
/// `pat` does not occur.
pub open spec fn replace_first(s: Seq<char>, pat: Seq<char>, rep: Seq<char>) -> Seq<char> {
    if exists|i: int| occurs_at(s, pat, i) {
        let i = choose|i: int| occurs_at(s, pat, i) && forall|j: int| 0 <= j < i ==> !occurs_at(s, pat, j);
        s.subrange(0, i) + rep + s.subrange(i + pat.len(), s.len() as int)
    } else {
        s
    }
}

/// Where the Markdown made from `file` goes: `file` with its first `.html`
/// replaced by `.md`.
pub open spec fn markdown_path_of(file: Seq<char>) -> Seq<char> {
    replace_first(file, ".html"@, ".md"@)
}

fn string_of(s: &str) -> (r: String)
    ensures
        r@ == s@,
{
    String::from_str(s)
}

/// Whether `pat` stands in `s` from position `i` on.
fn occurs_at_exec(s: &str, n: usize, pat: &str, m: usize, i: usize) -> (r: bool)
    requires
        n == s@.len(),
        m == pat@.len(),
        i + m <= n,
    ensures
        r == occurs_at(s@, pat@, i as int),
{
    let mut k: usize = 0;
    while k < m
        invariant
            n == s@.len(),
            m == pat@.len(),
            i + m <= n,
            k <= m,
            forall|j: int| 0 <= j < k ==> s@[i + j] == pat@[j],
        decreases m - k,
    {
        if s.get_char(i + k) != pat.get_char(k) {
            assert(s@.subrange(i as int, i + m)[k as int] != pat@[k as int]);
            return false;
        }
        k += 1;
    }
    assert(s@.subrange(i as int, i + m) =~= pat@);
    true
}

/// `s` with the first occurrence of `pat` replaced by `rep`.
pub fn replace_first_exec(s: &str, pat: &str, rep: &str) -> (r: String)
    ensures
        r@ == replace_first(s@, pat@, rep@),
{
    let n = s.unicode_len();
    let m = pat.unicode_len();
    if m > n {
        assert forall|i: int| !occurs_at(s@, pat@, i) by {}
        return string_of(s);
    }
    let mut i: usize = 0;
    while i <= n - m
        invariant
            n == s@.len(),
            m == pat@.len(),
            m <= n,
            i <= n - m + 1,
            forall|j: int| 0 <= j < i ==> !occurs_at(s@, pat@, j),
            m == 0 ==> i == 0,
        decreases n - m + 1 - i,
    {
        assert(m == 0 ==> s@.subrange(i as int, i as int) =~= pat@);
        if occurs_at_exec(s, n, pat, m, i) {
            let ghost first = choose|j: int|
                occurs_at(s@, pat@, j) && forall|k: int| 0 <= k < j ==> !occurs_at(s@, pat@, k);
            assert(first == i) by {
                if first < i {
                } else if first > i {
                }
            }
            let mut r = string_of(s.substring_char(0, i));
            r.append(rep);
            r.append(s.substring_char(i + m, n));
            return r;
        }
        i += 1;
    }
    assert forall|j: int| !occurs_at(s@, pat@, j) by {
        if 0 <= j < i {
        }
    }
    string_of(s)
}

/// Where the Markdown made from `file` goes: `file` with its first `.html`
/// replaced by `.md`.
pub fn markdown_path(file: &str) -> (r: String)
    ensures
        r@ == markdown_path_of(file@),
{
    replace_first_exec(file, ".html", ".md")
}

/// `git pull`, run inside the repository at `dir`.
pub fn git_pull(dir: &str) -> (r: Invocation)
    ensures
        r@ == git_pull_line(dir@),
{
    let mut args: Vec<String> = Vec::new();
    args.push(string_of("pull"));
    let r = Invocation { program: string_of("git"), args, cwd: Some(string_of(dir)) };
    assert(r@.args =~= seq!["pull"@]);
    r
}

/// The font tool's WOFF2 compression of `file`.
pub fn woff2_compress(file: &str) -> (r: Invocation)
    ensures
        r@ == woff2_line(file@),
{
    let mut args: Vec<String> = Vec::new();
    args.push(string_of("ttLib.woff2"));
    args.push(string_of("compress"));
    args.push(string_of(file));
    let r = Invocation { program: string_of("fonttools"), args, cwd: None };
    assert(r@.args =~= seq!["ttLib.woff2"@, "compress"@, file@]);
    r
}

/// The document converter run that turns `file` into Markdown beside it.
pub fn html_to_md_file(file: &str) -> (r: Invocation)
    ensures
        r@ == pandoc_line(file@, markdown_path_of(file@)),
{
    let out = markdown_path(file);
    let mut args: Vec<String> = Vec::new();
    args.push(string_of(file));
    args.push(string_of("-f"));
    args.push(string_of("html"));
    args.push(string_of("-t"));
    args.push(string_of("commonmark"));
    args.push(string_of("-o"));
    args.push(out);
    let r = Invocation { program: string_of("pandoc"), args, cwd: None };
    assert(r@.args =~= seq![file@, "-f"@, "html"@, "-t"@, "commonmark"@, "-o"@, markdown_path_of(file@)]);
    r
}

/// The converter runs for `files`, one for each, in the order given.
pub fn html_to_md(files: &Vec<String>) -> (r: Vec<Invocation>)
    ensures
        r@.len() == files@.len(),
        forall|i: int|
            0 <= i < files@.len() ==> #[trigger] r@[i]@ == pandoc_line(
                files@[i]@,
                markdown_path_of(files@[i]@),
            ),
{
    let mut r: Vec<Invocation> = Vec::new();
    let mut i: usize = 0;
    while i < files.len()
        invariant
            i <= files@.len(),
            r@.len() == i,
            forall|j: int|
                0 <= j < i ==> #[trigger] r@[j]@ == pandoc_line(
                    files@[j]@,
                    markdown_path_of(files@[j]@),
                ),
        decreases files@.len() - i,
    {
        r.push(html_to_md_file(files[i].as_str()));
        i += 1;
    }
    r
}

} // verus!
