//! Project files: a `lox.toml` marks a directory as one deployment target
//! — base config, module sources, lockfile, compiled output — so the CLI
//! runs without flags inside it.
//!
//! The format is a strict, flat subset of TOML: `key = "string"` pairs
//! and `#` comments. Tables, arrays, and non-string values are refused
//! with a pointed error. Paths are relative to the file's directory.
use crate::error::{Error, Result};
use crate::text::{
    chars_of, dec, find_char_from, find_from, is_whitespace, is_ws, lemma_find_from, push_char,
    push_dec, push_range, push_str, str_eq, string_from_range, string_of,
};
use crate::uuid::{parse_serial, serial_parse, PairsOutcome};
use vstd::prelude::*;
use vstd::string::StrSliceExecFns;

verus! {

/// The file name that marks a project root.
pub const PROJECT_FILE: &'static str = "lox.toml";

/// A parsed `lox.toml` with all paths resolved against its directory.
#[derive(Debug, Clone, PartialEq, Eq)]
pub struct Project {
    /// The directory holding the `lox.toml`.
    pub root: String,
    /// The deployed `.Loxone` config compiles read (`base = …`, required).
    pub base: String,
    /// Module source: one `.lxir` file or a directory of fragments
    /// (`module = …`, required).
    pub module: String,
    /// The identity lockfile (`lock = …`, default `lxir.lock.json`).
    pub lock: String,
    /// Compile output (`out = …`, default `out.Loxone`).
    pub out: String,
    /// Miniserver serial, 12 hex digits (`serial = …`, optional).
    pub serial: Option<String>,
    /// Page title for newly placed blocks (`page = …`, optional).
    pub page: Option<String>,
}

pub struct SProject {
    pub root: Seq<char>,
    pub base: Seq<char>,
    pub module: Seq<char>,
    pub lock: Seq<char>,
    pub out: Seq<char>,
    pub serial: Option<Seq<char>>,
    pub page: Option<Seq<char>>,
}

pub open spec fn opt_chars(o: Option<String>) -> Option<Seq<char>> {
    match o {
        Some(s) => Some(s@),
        None => None,
    }
}

impl View for Project {
    type V = SProject;

    open spec fn view(&self) -> SProject {
        SProject {
            root: self.root@,
            base: self.base@,
            module: self.module@,
            lock: self.lock@,
            out: self.out@,
            serial: opt_chars(self.serial),
            page: opt_chars(self.page),
        }
    }
}

// ---------------------------------------------------------------------------
// Specification
// ---------------------------------------------------------------------------

/// Index of the first non-whitespace character at or after `i`.
pub open spec fn skip_ws_from(s: Seq<char>, i: int) -> int
    decreases s.len() - i,
{
    if i < 0 || i >= s.len() || !is_ws(s[i]) {
        i
    } else {
        skip_ws_from(s, i + 1)
    }
}

/// Length of `s` without its trailing whitespace (looking at `s[..n]`).
pub open spec fn trim_end_len(s: Seq<char>, n: int) -> int
    decreases n,
{
    if n <= 0 || n > s.len() || !is_ws(s[n - 1]) {
        n
    } else {
        trim_end_len(s, n - 1)
    }
}

/// `str::trim`: without leading and trailing whitespace.
pub open spec fn trim(s: Seq<char>) -> Seq<char> {
    let a = skip_ws_from(s, 0);
    let b = trim_end_len(s, s.len() as int);
    if a >= b {
        seq![]
    } else {
        s.subrange(a, b)
    }
}

/// Without leading byte-order marks.
pub open spec fn strip_boms(s: Seq<char>) -> Seq<char>
    decreases s.len(),
{
    if s.len() > 0 && s[0] == '\u{feff}' {
        strip_boms(s.drop_first())
    } else {
        s
    }
}

/// The lines of a text, split at `\n` (line endings are whitespace that
/// trimming removes, so `\r` needs no separate treatment).
pub open spec fn split_lines(s: Seq<char>, start: int) -> Seq<Seq<char>>
    decreases s.len() - start,
{
    if start < 0 || start >= s.len() {
        seq![]
    } else {
        let i = find_from(s, start, '\n');
        if i >= s.len() || i < start {
            seq![s.subrange(start, s.len() as int)]
        } else {
            seq![s.subrange(start, i)] + split_lines(s, i + 1)
        }
    }
}

pub open spec fn known_key(k: Seq<char>) -> bool {
    k == "base"@ || k == "module"@ || k == "lock"@ || k == "out"@ || k == "serial"@ || k == "page"@
}

/// `line N: msg`.
pub open spec fn line_msg(lineno: nat, msg: Seq<char>) -> Seq<char> {
    "line "@ + dec(lineno) + ": "@ + msg
}

pub open spec fn escaped(d: char) -> Option<char> {
    if d == '"' {
        Some('"')
    } else if d == '\\' {
        Some('\\')
    } else if d == 'n' {
        Some('\n')
    } else if d == 't' {
        Some('\t')
    } else if d == 'r' {
        Some('\r')
    } else {
        None
    }
}

/// The body of a quoted value from position `p` (after the opening quote),
/// with `out` read so far: the value, or the error message.
pub open spec fn scan_string(rest: Seq<char>, p: int, out: Seq<char>, lineno: nat) -> core::result::Result<
    Seq<char>,
    Seq<char>,
>
    decreases rest.len() - p,
{
    if p < 0 || p >= rest.len() {
        Err(line_msg(lineno, "unterminated string (missing closing `\"`)"@))
    } else if rest[p] == '"' {
        let tail = trim(rest.subrange(p + 1, rest.len() as int));
        if tail.len() > 0 && tail[0] != '#' {
            Err(line_msg(lineno, "unexpected `"@ + tail + "` after the closing `\"`"@))
        } else {
            Ok(out)
        }
    } else if rest[p] == '\\' {
        let d: Seq<char> = if p + 1 < rest.len() {
            seq![rest[p + 1]]
        } else {
            seq![]
        };
        if p + 1 < rest.len() && escaped(rest[p + 1]) is Some {
            scan_string(rest, p + 2, out.push(escaped(rest[p + 1])->0), lineno)
        } else {
            Err(
                line_msg(
                    lineno,
                    "unsupported escape `\\"@ + d + "` (supported: \\\" \\\\ \\n \\t \\r)"@,
                ),
            )
        }
    } else {
        scan_string(rest, p + 1, out.push(rest[p]), lineno)
    }
}

/// A TOML basic string with the common escapes, optionally followed by a
/// `#` comment.
pub open spec fn parse_value(rest: Seq<char>, lineno: nat) -> core::result::Result<
    Seq<char>,
    Seq<char>,
> {
    if rest.len() == 0 || rest[0] != '"' {
        Err(
            line_msg(
                lineno,
                "values are quoted strings: `key = \"value\"` (a `\"` must open the value)"@,
            ),
        )
    } else {
        scan_string(rest, 1, seq![], lineno)
    }
}

pub open spec fn has_key(vals: Seq<(Seq<char>, Seq<char>)>, k: Seq<char>) -> bool {
    exists|i: int| 0 <= i < vals.len() && #[trigger] vals[i].0 == k
}

/// The value set for `k`.
pub open spec fn value_of(vals: Seq<(Seq<char>, Seq<char>)>, k: Seq<char>) -> Option<Seq<char>>
    decreases vals.len(),
{
    if vals.len() == 0 {
        None
    } else if vals.last().0 == k {
        Some(vals.last().1)
    } else {
        value_of(vals.drop_last(), k)
    }
}

/// The key/value lines from line `i` on, after `vals`: all pairs, or the
/// first error message.
pub open spec fn parse_lines(
    ls: Seq<Seq<char>>,
    i: int,
    vals: Seq<(Seq<char>, Seq<char>)>,
) -> core::result::Result<Seq<(Seq<char>, Seq<char>)>, Seq<char>>
    decreases ls.len() - i,
{
    if i < 0 || i >= ls.len() {
        Ok(vals)
    } else {
        let line = trim(strip_boms(ls[i]));
        let lineno = (i + 1) as nat;
        if line.len() == 0 || line[0] == '#' {
            parse_lines(ls, i + 1, vals)
        } else if line[0] == '[' {
            Err(
                line_msg(
                    lineno,
                    "tables are not part of the project format — flat `key = \"value\"` lines only"@,
                ),
            )
        } else {
            let eq = find_from(line, 0, '=');
            if eq >= line.len() || eq < 0 {
                Err(line_msg(lineno, "expected `key = \"value\"`"@))
            } else {
                let key = trim(line.subrange(0, eq));
                if !known_key(key) {
                    Err(
                        line_msg(
                            lineno,
                            "unknown key `"@ + key
                                + "` (known: base, module, lock, out, serial, page)"@,
                        ),
                    )
                } else if has_key(vals, key) {
                    Err(line_msg(lineno, "`"@ + key + "` is set twice"@))
                } else {
                    match parse_value(trim(line.subrange(eq + 1, line.len() as int)), lineno) {
                        Err(m) => Err(m),
                        Ok(v) => if v.len() == 0 {
                            Err(line_msg(lineno, "`"@ + key + "` is empty"@))
                        } else {
                            parse_lines(ls, i + 1, vals.push((key, v)))
                        },
                    }
                }
            }
        }
    }
}

/// `Path::join` on Unix: an absolute `v` replaces the root; otherwise the
/// two are joined with one separator.
pub open spec fn join_path(root: Seq<char>, v: Seq<char>) -> Seq<char> {
    if v.len() > 0 && v[0] == '/' {
        v
    } else if root.len() == 0 {
        v
    } else if root.last() == '/' {
        root + v
    } else {
        root + seq!['/'] + v
    }
}

/// Dropping a leading `.` component: `.` becomes empty, `./x` becomes `x`.
pub open spec fn strip_cur_dir(p: Seq<char>) -> Seq<char> {
    if p == seq!['.'] {
        seq![]
    } else if p.len() >= 2 && p[0] == '.' && p[1] == '/' {
        strip_slashes(p.subrange(2, p.len() as int))
    } else {
        p
    }
}

pub open spec fn strip_slashes(p: Seq<char>) -> Seq<char>
    decreases p.len(),
{
    if p.len() > 0 && p[0] == '/' {
        strip_slashes(p.drop_first())
    } else {
        p
    }
}

pub open spec fn resolve(root: Seq<char>, v: Seq<char>) -> Seq<char> {
    strip_cur_dir(join_path(root, v))
}

/// What parsing a project file gives.
pub enum ProjectParse {
    Parsed(SProject),
    /// Refused with this message.
    Refused(Seq<char>),
    /// The serial is cut inside a multi-byte character (the original
    /// serial decoder slices there and panics).
    Panics,
}

pub open spec fn project_parse(src: Seq<char>, root: Seq<char>) -> ProjectParse {
    match parse_lines(split_lines(src, 0), 0, seq![]) {
        Err(m) => ProjectParse::Refused(m),
        Ok(vals) => {
            let base = value_of(vals, "base"@);
            let module = value_of(vals, "module"@);
            let serial = value_of(vals, "serial"@);
            if base is None {
                ProjectParse::Refused("missing required key `base`"@)
            } else if module is None {
                ProjectParse::Refused("missing required key `module`"@)
            } else if serial is Some && serial_parse(serial->0) is Panics {
                ProjectParse::Panics
            } else if serial is Some && serial_parse(serial->0) is Refused {
                ProjectParse::Refused(
                    "serial \""@ + serial->0 + "\" is not a 12-hex-digit Miniserver serial"@,
                )
            } else {
                ProjectParse::Parsed(
                    SProject {
                        root,
                        base: resolve(root, base->0),
                        module: resolve(root, module->0),
                        lock: resolve(
                            root,
                            match value_of(vals, "lock"@) {
                                Some(v) => v,
                                None => "lxir.lock.json"@,
                            },
                        ),
                        out: resolve(
                            root,
                            match value_of(vals, "out"@) {
                                Some(v) => v,
                                None => "out.Loxone"@,
                            },
                        ),
                        serial,
                        page: value_of(vals, "page"@),
                    },
                )
            }
        },
    }
}

// ---------------------------------------------------------------------------
// Implementation
// ---------------------------------------------------------------------------

fn trim_chars(s: &Vec<char>) -> (r: Vec<char>)
    ensures
        r@ == trim(s@),
{
    let mut a: usize = 0;
    while a < s.len() && is_whitespace(s[a])
        invariant
            0 <= a <= s@.len(),
            skip_ws_from(s@, 0) == skip_ws_from(s@, a as int),
        decreases s@.len() - a,
    {
        a = a + 1;
    }
    let mut b: usize = s.len();
    while b > 0 && is_whitespace(s[b - 1])
        invariant
            0 <= b <= s@.len(),
            trim_end_len(s@, s@.len() as int) == trim_end_len(s@, b as int),
        decreases b,
    {
        b = b - 1;
    }
    if a >= b {
        Vec::new()
    } else {
        crate::text::chars_range(s, a, b)
    }
}

fn strip_boms_exec(s: &Vec<char>) -> (r: Vec<char>)
    ensures
        r@ == strip_boms(s@),
{
    let mut a: usize = 0;
    assert(s@.subrange(0, s@.len() as int) =~= s@);
    while a < s.len() && s[a] == '\u{feff}'
        invariant
            0 <= a <= s@.len(),
            strip_boms(s@) == strip_boms(s@.subrange(a as int, s@.len() as int)),
        decreases s@.len() - a,
    {
        proof {
            let t = s@.subrange(a as int, s@.len() as int);
            assert(t.drop_first() =~= s@.subrange(a + 1, s@.len() as int));
        }
        a = a + 1;
    }
    crate::text::chars_range(s, a, s.len())
}

fn lines_of(s: &Vec<char>) -> (r: Vec<Vec<char>>)
    ensures
        r@.map_values(|l: Vec<char>| l@) == split_lines(s@, 0),
{
    let mut out: Vec<Vec<char>> = Vec::new();
    let mut start: usize = 0;
    while start < s.len()
        invariant
            0 <= start <= s@.len(),
            out@.map_values(|l: Vec<char>| l@) + split_lines(s@, start as int) == split_lines(
                s@,
                0,
            ),
        decreases s@.len() - start,
    {
        let i = find_char_from(s, start, '\n');
        proof {
            lemma_find_from(s@, start as int, '\n');
        }
        let ghost before = out@.map_values(|l: Vec<char>| l@);
        if i >= s.len() {
            out.push(crate::text::chars_range(s, start, s.len()));
            proof {
                assert(out@.map_values(|l: Vec<char>| l@) =~= before.push(
                    s@.subrange(start as int, s@.len() as int),
                ));
                assert(split_lines(s@, s@.len() as int) =~= Seq::<Seq<char>>::empty());
                assert(out@.map_values(|l: Vec<char>| l@) + split_lines(s@, s@.len() as int)
                    =~= before + split_lines(s@, start as int));
            }
            start = s.len();
        } else {
            out.push(crate::text::chars_range(s, start, i));
            proof {
                assert(out@.map_values(|l: Vec<char>| l@) =~= before.push(
                    s@.subrange(start as int, i as int),
                ));
                assert(out@.map_values(|l: Vec<char>| l@) + split_lines(s@, i + 1) =~= before
                    + split_lines(s@, start as int));
            }
            start = i + 1;
        }
    }
    proof {
        assert(split_lines(s@, start as int) =~= Seq::<Seq<char>>::empty());
        assert(out@.map_values(|l: Vec<char>| l@) =~= out@.map_values(|l: Vec<char>| l@)
            + split_lines(s@, start as int));
    }
    out
}

/// `line N: ` followed by `msg`.
fn line_err(lineno: usize, msg: &str) -> (r: String)
    ensures
        r@ == line_msg(lineno as nat, msg@),
{
    let mut m = string_of("line ");
    push_dec(&mut m, lineno as u64);
    push_str(&mut m, ": ");
    push_str(&mut m, msg);
    m
}

fn parse_value_exec(rest: &Vec<char>, lineno: usize) -> (r: core::result::Result<String, String>)
    ensures
        match r {
            Ok(v) => parse_value(rest@, lineno as nat) == Ok::<Seq<char>, Seq<char>>(v@),
            Err(m) => parse_value(rest@, lineno as nat) == Err::<Seq<char>, Seq<char>>(m@),
        },
{
    if rest.len() == 0 || rest[0] != '"' {
        return Err(
            line_err(
                lineno,
                "values are quoted strings: `key = \"value\"` (a `\"` must open the value)",
            ),
        );
    }
    let mut out = String::new();
    let mut p: usize = 1;
    loop
        invariant
            1 <= p,
            parse_value(rest@, lineno as nat) == scan_string(rest@, p as int, out@, lineno as nat),
        decreases rest@.len() - p,
    {
        if p >= rest.len() {
            return Err(line_err(lineno, "unterminated string (missing closing `\"`)"));
        }
        let c = rest[p];
        if c == '"' {
            let tail_raw = crate::text::chars_range(rest, p + 1, rest.len());
            let tail = trim_chars(&tail_raw);
            if tail.len() > 0 && tail[0] != '#' {
                let mut m = string_of("unexpected `");
                let t = crate::text::string_from_chars(&tail);
                push_str(&mut m, t.as_str());
                push_str(&mut m, "` after the closing `\"`");
                return Err(line_err(lineno, m.as_str()));
            }
            return Ok(out);
        } else if c == '\\' {
            if p + 1 < rest.len() {
                let d = rest[p + 1];
                let e = if d == '"' {
                    Some('"')
                } else if d == '\\' {
                    Some('\\')
                } else if d == 'n' {
                    Some('\n')
                } else if d == 't' {
                    Some('\t')
                } else if d == 'r' {
                    Some('\r')
                } else {
                    None
                };
                match e {
                    Some(x) => {
                        push_char(&mut out, x);
                        p = p + 2;
                    },
                    None => {
                        let mut m = string_of("unsupported escape `\\");
                        push_char(&mut m, d);
                        push_str(&mut m, "` (supported: \\\" \\\\ \\n \\t \\r)");
                        proof {
                            assert(m@ =~= "unsupported escape `\\"@ + seq![d]
                                + "` (supported: \\\" \\\\ \\n \\t \\r)"@);
                        }
                        return Err(line_err(lineno, m.as_str()));
                    },
                }
            } else {
                let mut m = string_of("unsupported escape `\\");
                push_str(&mut m, "` (supported: \\\" \\\\ \\n \\t \\r)");
                proof {
                    assert(m@ =~= "unsupported escape `\\"@ + Seq::<char>::empty()
                        + "` (supported: \\\" \\\\ \\n \\t \\r)"@);
                }
                return Err(line_err(lineno, m.as_str()));
            }
        } else {
            push_char(&mut out, c);
            p = p + 1;
        }
    }
}

pub open spec fn vals_view(v: Seq<(String, String)>) -> Seq<(Seq<char>, Seq<char>)> {
    v.map_values(|p: (String, String)| (p.0@, p.1@))
}

fn has_key_exec(vals: &Vec<(String, String)>, k: &str) -> (r: bool)
    ensures
        r == has_key(vals_view(vals@), k@),
{
    let mut i: usize = 0;
    while i < vals.len()
        invariant
            0 <= i <= vals@.len(),
            forall|j: int| 0 <= j < i ==> vals@[j].0@ != k@,
        decreases vals@.len() - i,
    {
        if str_eq(vals[i].0.as_str(), k) {
            assert(vals_view(vals@)[i as int].0 == k@);
            return true;
        }
        i = i + 1;
    }
    proof {
        if has_key(vals_view(vals@), k@) {
            let j = choose|j: int| 0 <= j < vals_view(vals@).len() && #[trigger] vals_view(vals@)[j].0 == k@;
            assert(vals@[j].0@ == k@);
        }
    }
    false
}

fn value_of_exec(vals: &Vec<(String, String)>, k: &str) -> (r: Option<String>)
    ensures
        opt_chars(r) == value_of(vals_view(vals@), k@),
{
    let ghost vv = vals_view(vals@);
    let mut i: usize = vals.len();
    assert(vv.take(i as int) =~= vv);
    while i > 0
        invariant
            0 <= i <= vals@.len(),
            vv == vals_view(vals@),
            value_of(vv, k@) == value_of(vv.take(i as int), k@),
        decreases i,
    {
        proof {
            assert(vv.take(i as int).drop_last() =~= vv.take(i - 1));
            assert(vv.take(i as int).last() == (vals@[i - 1].0@, vals@[i - 1].1@));
        }
        if str_eq(vals[i - 1].0.as_str(), k) {
            return Some(string_of(vals[i - 1].1.as_str()));
        }
        i = i - 1;
    }
    None
}

fn resolve_exec(root: &str, v: &str) -> (r: String)
    ensures
        r@ == resolve(root@, v@),
{
    let rv = chars_of(root);
    let vv = chars_of(v);
    let mut joined: Vec<char> = Vec::new();
    if vv.len() > 0 && vv[0] == '/' {
        joined = vv;
    } else if rv.len() == 0 {
        joined = vv;
    } else {
        let mut k: usize = 0;
        while k < rv.len()
            invariant
                0 <= k <= rv@.len(),
                joined@ == rv@.take(k as int),
            decreases rv@.len() - k,
        {
            joined.push(rv[k]);
            proof {
                assert(rv@.take(k + 1) =~= rv@.take(k as int).push(rv@[k as int]));
            }
            k = k + 1;
        }
        if rv[rv.len() - 1] != '/' {
            joined.push('/');
        }
        let ghost head = joined@;
        let mut k: usize = 0;
        while k < vv.len()
            invariant
                0 <= k <= vv@.len(),
                joined@ == head + vv@.take(k as int),
            decreases vv@.len() - k,
        {
            joined.push(vv[k]);
            proof {
                assert(vv@.take(k + 1) =~= vv@.take(k as int).push(vv@[k as int]));
            }
            k = k + 1;
        }
        proof {
            assert(rv@.take(rv@.len() as int) =~= rv@);
            assert(vv@.take(vv@.len() as int) =~= vv@);
            assert(joined@ =~= join_path(root@, v@));
        }
    }
    assert(joined@ == join_path(root@, v@));
    let j = joined.len();
    if j == 1 && joined[0] == '.' {
        assert(joined@ =~= seq!['.']);
        return String::new();
    }
    if j >= 2 && joined[0] == '.' && joined[1] == '/' {
        let mut a: usize = 2;
        while a < j && joined[a] == '/'
            invariant
                2 <= a <= j,
                j == joined@.len(),
                strip_slashes(joined@.subrange(2, j as int)) == strip_slashes(
                    joined@.subrange(a as int, j as int),
                ),
            decreases j - a,
        {
            proof {
                let t = joined@.subrange(a as int, j as int);
                assert(t.drop_first() =~= joined@.subrange(a + 1, j as int));
            }
            a = a + 1;
        }
        proof {
            let t = joined@.subrange(a as int, j as int);
            assert(strip_slashes(t) == t);
            if joined@ == seq!['.'] {
                assert(joined@.len() == 1);
            }
        }
        return string_from_range(&joined, a, j);
    }
    proof {
        if joined@ == seq!['.'] {
            assert(joined@[0] == '.');
        }
    }
    crate::text::string_from_chars(&joined)
}

impl Project {
    /// Parse project-file text; relative paths resolve against `root`.
    pub fn parse(src: &str, root: &str) -> (r: Result<Project>)
        requires
            !(project_parse(src@, root@) is Panics),
        ensures
            match r {
                Ok(p) => project_parse(src@, root@) == ProjectParse::Parsed(p@),
                Err(e) => (project_parse(src@, root@) matches ProjectParse::Refused(m) && e
                    == Error::Project(e->Project_0) && e->Project_0@ == m),
            },
    {
        match Self::try_parse(src, root) {
            Some(r) => r,
            None => {
                proof {
                    assert(false);
                }
                Err(Error::Project(String::new()))
            },
        }
    }

    /// [`Project::parse`] on any text: `None` where parsing would cut the
    /// serial inside a multi-byte character, which the serial decoder does
    /// not survive.
    pub fn try_parse(src: &str, root: &str) -> (r: Option<Result<Project>>)
        ensures
            match r {
                None => project_parse(src@, root@) is Panics,
                Some(Ok(p)) => project_parse(src@, root@) == ProjectParse::Parsed(p@),
                Some(Err(e)) => (project_parse(src@, root@) matches ProjectParse::Refused(m) && e
                    == Error::Project(e->Project_0) && e->Project_0@ == m),
            },
    {
        let sv = chars_of(src);
        let lines = lines_of(&sv);
        let ghost ls = lines@.map_values(|l: Vec<char>| l@);
        let mut vals: Vec<(String, String)> = Vec::new();
        let mut i: usize = 0;
        assert(vals_view(vals@) =~= Seq::<(Seq<char>, Seq<char>)>::empty());
        while i < lines.len()
            invariant
                0 <= i <= lines@.len(),
                ls == lines@.map_values(|l: Vec<char>| l@),
                ls == split_lines(src@, 0),
                parse_lines(ls, 0, seq![]) == parse_lines(ls, i as int, vals_view(vals@)),
            decreases lines@.len() - i,
        {
            let lineno = i + 1;
            let stripped = strip_boms_exec(&lines[i]);
            let line = trim_chars(&stripped);
            assert(line@ == trim(strip_boms(ls[i as int])));
            if line.len() == 0 || line[0] == '#' {
                i = i + 1;
            } else if line[0] == '[' {
                return Some(Err(
                    Error::Project(
                        line_err(
                            lineno,
                            "tables are not part of the project format — flat `key = \"value\"` lines only",
                        ),
                    ),
                ));
            } else {
                let eq = find_char_from(&line, 0, '=');
                proof {
                    lemma_find_from(line@, 0, '=');
                }
                if eq >= line.len() {
                    return Some(Err(Error::Project(line_err(lineno, "expected `key = \"value\"`"))));
                }
                let key_raw = crate::text::chars_range(&line, 0, eq);
                let key_chars = trim_chars(&key_raw);
                let key = crate::text::string_from_chars(&key_chars);
                let k = key.as_str();
                let known = str_eq(k, "base") || str_eq(k, "module") || str_eq(k, "lock") || str_eq(
                    k,
                    "out",
                ) || str_eq(k, "serial") || str_eq(k, "page");
                if !known {
                    let mut m = string_of("unknown key `");
                    push_str(&mut m, k);
                    push_str(&mut m, "` (known: base, module, lock, out, serial, page)");
                    return Some(Err(Error::Project(line_err(lineno, m.as_str()))));
                }
                if has_key_exec(&vals, k) {
                    let mut m = string_of("`");
                    push_str(&mut m, k);
                    push_str(&mut m, "` is set twice");
                    return Some(Err(Error::Project(line_err(lineno, m.as_str()))));
                }
                let rest_raw = crate::text::chars_range(&line, eq + 1, line.len());
                let rest = trim_chars(&rest_raw);
                let value = match parse_value_exec(&rest, lineno) {
                    Ok(v) => v,
                    Err(m) => {
                        return Some(Err(Error::Project(m)));
                    },
                };
                if value.as_str().unicode_len() == 0 {
                    let mut m = string_of("`");
                    push_str(&mut m, k);
                    push_str(&mut m, "` is empty");
                    return Some(Err(Error::Project(line_err(lineno, m.as_str()))));
                }
                let ghost vb = vals_view(vals@);
                vals.push((key, value));
                proof {
                    assert(vals_view(vals@) =~= vb.push((key_chars@, value@)));
                }
                i = i + 1;
            }
        }
        proof {
            assert(parse_lines(ls, i as int, vals_view(vals@)) == Ok::<
                Seq<(Seq<char>, Seq<char>)>,
                Seq<char>,
            >(vals_view(vals@)));
        }
        let base = match value_of_exec(&vals, "base") {
            Some(b) => b,
            None => {
                return Some(Err(Error::Project(string_of("missing required key `base`"))));
            },
        };
        let module = match value_of_exec(&vals, "module") {
            Some(m) => m,
            None => {
                return Some(Err(Error::Project(string_of("missing required key `module`"))));
            },
        };
        let serial = value_of_exec(&vals, "serial");
        match &serial {
            Some(s) => {
                if crate::uuid::serial_parse_panics(s.as_str()) {
                    return None;
                }
                match parse_serial(s.as_str()) {
                    Ok(_) => {},
                    Err(_) => {
                        let mut m = string_of("serial \"");
                        push_str(&mut m, s.as_str());
                        push_str(&mut m, "\" is not a 12-hex-digit Miniserver serial");
                        return Some(Err(Error::Project(m)));
                    },
                }
            },
            None => {},
        }
        let lock = match value_of_exec(&vals, "lock") {
            Some(l) => l,
            None => string_of("lxir.lock.json"),
        };
        let out = match value_of_exec(&vals, "out") {
            Some(o) => o,
            None => string_of("out.Loxone"),
        };
        let page = value_of_exec(&vals, "page");
        Some(Ok(
            Project {
                root: string_of(root),
                base: resolve_exec(root, base.as_str()),
                module: resolve_exec(root, module.as_str()),
                lock: resolve_exec(root, lock.as_str()),
                out: resolve_exec(root, out.as_str()),
                serial,
                page,
            },
        ))
    }
}

} // verus!
