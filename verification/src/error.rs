//! Crate-wide error type.
use crate::text::{chars_of, dec, push_char, push_dec, push_str};
use vstd::prelude::*;

verus! {

#[derive(Debug)]
pub enum Error {
    /// Malformed XML in a `.Loxone` document.
    Xml { line: usize, msg: String },
    /// The document is well-formed XML but violates `.Loxone` structure
    /// assumptions (missing root, missing Document element, …).
    Structure(String),
    /// Malformed Loxone UUID.
    Uuid { value: String, msg: String },
    /// Syntax error in IR source text.
    IrParse { line: usize, msg: String },
    /// Semantic error while compiling IR (unknown slug, unknown port, …).
    Compile(String),
    /// An extern's match spec resolved to more than one object.
    AmbiguousMatch { slug: String, spec: String, count: usize, candidates: String },
    /// An extern's match spec resolved to no object at all.
    NoMatch { slug: String, spec: String },
    /// Lockfile violations (counter decrease, orphaned slug, …).
    Lock(String),
    /// A malformed project file.
    Project(String),
    /// An I/O failure, as its message.
    Io(String),
    /// A JSON (de)serialization failure, as its message.
    Json(String),
}

pub type Result<T> = core::result::Result<T, Error>;

/// A string in Rust's `{:?}` form: double quotes around it, with `"`, `\`,
/// and the common control characters escaped.
pub open spec fn debug_quoted(s: Seq<char>) -> Seq<char> {
    seq!['"'] + debug_escaped(s) + seq!['"']
}

pub open spec fn debug_escape_char(c: char) -> Seq<char> {
    if c == '"' {
        seq!['\\', '"']
    } else if c == '\\' {
        seq!['\\', '\\']
    } else if c == '\n' {
        seq!['\\', 'n']
    } else if c == '\r' {
        seq!['\\', 'r']
    } else if c == '\t' {
        seq!['\\', 't']
    } else if c == '\0' {
        seq!['\\', '0']
    } else {
        seq![c]
    }
}

pub open spec fn debug_escaped(s: Seq<char>) -> Seq<char>
    decreases s.len(),
{
    if s.len() == 0 {
        seq![]
    } else {
        debug_escaped(s.drop_last()) + debug_escape_char(s.last())
    }
}

fn push_debug_escape_char(out: &mut String, c: char)
    ensures
        final(out)@ == old(out)@ + debug_escape_char(c),
{
    let ghost o = out@;
    if c == '"' {
        push_char(out, '\\');
        push_char(out, '"');
    } else if c == '\\' {
        push_char(out, '\\');
        push_char(out, '\\');
    } else if c == '\n' {
        push_char(out, '\\');
        push_char(out, 'n');
    } else if c == '\r' {
        push_char(out, '\\');
        push_char(out, 'r');
    } else if c == '\t' {
        push_char(out, '\\');
        push_char(out, 't');
    } else if c == '\0' {
        push_char(out, '\\');
        push_char(out, '0');
    } else {
        push_char(out, c);
    }
    proof {
        assert(out@ =~= o + debug_escape_char(c));
    }
}

/// Appends `s` in `{:?}` form.
pub fn push_debug_quoted(out: &mut String, s: &str)
    ensures
        final(out)@ == old(out)@ + debug_quoted(s@),
{
    let cs = chars_of(s);
    let ghost o = out@;
    push_char(out, '"');
    let mut i: usize = 0;
    while i < cs.len()
        invariant
            0 <= i <= cs@.len(),
            cs@ == s@,
            out@ == o + seq!['"'] + debug_escaped(cs@.take(i as int)),
        decreases cs@.len() - i,
    {
        proof {
            assert(cs@.take(i + 1).drop_last() =~= cs@.take(i as int));
        }
        push_debug_escape_char(out, cs[i]);
        i = i + 1;
    }
    push_char(out, '"');
    proof {
        assert(cs@.take(cs@.len() as int) =~= cs@);
        assert(out@ =~= o + debug_quoted(s@));
    }
}

impl Error {
    /// The human-readable message (what `Display` prints for this error).
    pub open spec fn spec_message(&self) -> Seq<char> {
        match self {
            Error::Xml { line, msg } => "XML error at line "@ + dec(*line as nat) + ": "@ + msg@,
            Error::Structure(s) => "invalid .Loxone document: "@ + s@,
            Error::Uuid { value, msg } => "invalid Loxone UUID "@ + debug_quoted(value@) + ": "@
                + msg@,
            Error::IrParse { line, msg } => "IR parse error at line "@ + dec(*line as nat) + ": "@
                + msg@,
            Error::Compile(s) => "compile error: "@ + s@,
            Error::AmbiguousMatch { slug, spec, count, candidates } => "extern `"@ + slug@
                + "`: "@ + spec@ + " is ambiguous — "@ + dec(*count as nat) + " candidates:\n"@
                + candidates@ + "\nPin one with `uuid: \"…\"`."@,
            Error::NoMatch { slug, spec } => "extern `"@ + slug@ + "`: no object matches "@
                + spec@,
            Error::Lock(s) => "lockfile error: "@ + s@,
            Error::Project(s) => "project file error: "@ + s@,
            Error::Io(s) => "I/O error: "@ + s@,
            Error::Json(s) => "JSON error: "@ + s@,
        }
    }

    /// The human-readable message of this error.
    pub fn to_string(&self) -> (r: String)
        ensures
            r@ == self.spec_message(),
    {
        let mut out = String::new();
        match self {
            Error::Xml { line, msg } => {
                push_str(&mut out, "XML error at line ");
                push_dec(&mut out, *line as u64);
                push_str(&mut out, ": ");
                push_str(&mut out, msg.as_str());
            },
            Error::Structure(s) => {
                push_str(&mut out, "invalid .Loxone document: ");
                push_str(&mut out, s.as_str());
            },
            Error::Uuid { value, msg } => {
                push_str(&mut out, "invalid Loxone UUID ");
                push_debug_quoted(&mut out, value.as_str());
                push_str(&mut out, ": ");
                push_str(&mut out, msg.as_str());
            },
            Error::IrParse { line, msg } => {
                push_str(&mut out, "IR parse error at line ");
                push_dec(&mut out, *line as u64);
                push_str(&mut out, ": ");
                push_str(&mut out, msg.as_str());
            },
            Error::Compile(s) => {
                push_str(&mut out, "compile error: ");
                push_str(&mut out, s.as_str());
            },
            Error::AmbiguousMatch { slug, spec, count, candidates } => {
                push_str(&mut out, "extern `");
                push_str(&mut out, slug.as_str());
                push_str(&mut out, "`: ");
                push_str(&mut out, spec.as_str());
                push_str(&mut out, " is ambiguous — ");
                push_dec(&mut out, *count as u64);
                push_str(&mut out, " candidates:\n");
                push_str(&mut out, candidates.as_str());
                push_str(&mut out, "\nPin one with `uuid: \"…\"`.");
            },
            Error::NoMatch { slug, spec } => {
                push_str(&mut out, "extern `");
                push_str(&mut out, slug.as_str());
                push_str(&mut out, "`: no object matches ");
                push_str(&mut out, spec.as_str());
            },
            Error::Lock(s) => {
                push_str(&mut out, "lockfile error: ");
                push_str(&mut out, s.as_str());
            },
            Error::Project(s) => {
                push_str(&mut out, "project file error: ");
                push_str(&mut out, s.as_str());
            },
            Error::Io(s) => {
                push_str(&mut out, "I/O error: ");
                push_str(&mut out, s.as_str());
            },
            Error::Json(s) => {
                push_str(&mut out, "JSON error: ");
                push_str(&mut out, s.as_str());
            },
        }
        proof {
            assert(out@ =~= self.spec_message());
        }
        out
    }
}

} // verus!
