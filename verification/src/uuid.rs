//! The anatomy of Loxone UUIDs, and a deterministic minter.
//!
//! Loxone UUIDs are **not** RFC-4122 UUIDs: the format is
//! `{8 hex}-{4 hex}-{4 hex}-{16 hex}` — the last segment is 8 bytes, not 6.
//!
//! - **Segment 1** (`time`): seconds since the Loxone epoch (2009-01-01).
//! - **Segments 2+3** (`mid`, `seq`): sequence counters; unique per mint.
//! - **Segment 4** (`tail`, 8 bytes): what this UUID names — `ff ff` + 6
//!   bytes is an object (minting machine or per-object random value),
//!   `<index> ff` + 6 bytes a connector, anything else reserved/system space.
use crate::error::{Error, Result};
use crate::text::{
    chars_of, find_char_from, find_from, hex_fixed, lemma_find_from, parse_unsigned,
    parse_unsigned_exec, push_hex_fixed, push_str, string_from_range, string_of,
};
use sha2::{Digest, Sha256};
use vstd::prelude::*;
use vstd::utf8::{encode_utf8, is_continuation_byte};

verus! {

/// Unix timestamp of the Loxone epoch, 2009-01-01T00:00:00Z.
pub const LOXONE_EPOCH_UNIX: i64 = 1_230_768_000;

#[derive(Debug, Clone, Copy, PartialEq, Eq, PartialOrd, Ord, Hash)]
pub struct LoxUuid {
    pub time: u32,
    pub mid: u16,
    pub seq: u16,
    pub tail: [u8; 8],
}

/// What segment 4 says this UUID names.
#[derive(Debug, Clone, Copy, PartialEq, Eq)]
pub enum TailKind {
    /// `ffff` + suffix: an object (minting-machine id) or a block state.
    Object { suffix: [u8; 6] },
    /// `<index>ff` + entity: a connector; `index` is its position within the
    /// block, `entity` is shared by all connectors of the same block.
    Port { index: u8, entity: [u8; 6] },
    /// Reserved/system space (deterministic built-in UUIDs and unknowns).
    Other([u8; 8]),
}

/// The pieces of `s` between occurrences of `c`, scanning from `start`
/// (what `str::split(c)` yields).
pub open spec fn split_from(s: Seq<char>, start: int, c: char) -> Seq<Seq<char>>
    decreases s.len() - start,
{
    if start < 0 || start > s.len() {
        seq![]
    } else {
        let i = find_from(s, start, c);
        if i >= s.len() || i < start {
            seq![s.subrange(start, s.len() as int)]
        } else {
            seq![s.subrange(start, i)] + split_from(s, i + 1, c)
        }
    }
}

pub open spec fn split_on(s: Seq<char>, c: char) -> Seq<Seq<char>> {
    split_from(s, 0, c)
}

/// `s.split(c)`, each piece as its own `String`.
pub fn split_char(s: &str, c: char) -> (r: Vec<String>)
    ensures
        r@.len() == split_on(s@, c).len(),
        forall|i: int| 0 <= i < r@.len() ==> #[trigger] r@[i]@ == split_on(s@, c)[i],
{
    let v = chars_of(s);
    let mut out: Vec<String> = Vec::new();
    let mut start: usize = 0;
    let ghost mut done: Seq<Seq<char>> = seq![];
    loop
        invariant
            v@ == s@,
            0 <= start <= v@.len(),
            out@.len() == done.len(),
            forall|i: int| 0 <= i < out@.len() ==> #[trigger] out@[i]@ == done[i],
            split_on(v@, c) == done + split_from(v@, start as int, c),
        decreases v@.len() - start,
    {
        let i = find_char_from(&v, start, c);
        proof {
            lemma_find_from(v@, start as int, c);
        }
        let piece = string_from_range(&v, start, i);
        out.push(piece);
        if i >= v.len() {
            proof {
                assert(split_from(v@, start as int, c) == seq![v@.subrange(start as int, v@.len() as int)]);
                done = done + seq![v@.subrange(start as int, v@.len() as int)];
                assert(split_on(v@, c) =~= done);
            }
            return out;
        }
        proof {
            assert(split_from(v@, start as int, c) == seq![v@.subrange(start as int, i as int)]
                + split_from(v@, i + 1, c));
            done = done + seq![v@.subrange(start as int, i as int)];
            assert(split_on(v@, c) =~= done + split_from(v@, i + 1, c));
        }
        start = i + 1;
    }
}

/// An ASCII hex digit byte's value.
pub open spec fn hex_byte(b: u8) -> Option<int> {
    if 0x30 <= b <= 0x39 {
        Some(b - 0x30)
    } else if 0x61 <= b <= 0x66 {
        Some(b - 0x61 + 10)
    } else if 0x41 <= b <= 0x46 {
        Some(b - 0x41 + 10)
    } else {
        None
    }
}

/// `u8::from_str_radix(pair, 16)` for the two-byte string `b0 b1`.
pub open spec fn hex_pair(b0: u8, b1: u8) -> Option<u8> {
    if b0 == 0x2b && hex_byte(b1) is Some {
        Some(hex_byte(b1)->0 as u8)
    } else if hex_byte(b0) is Some && hex_byte(b1) is Some {
        Some((hex_byte(b0)->0 * 16 + hex_byte(b1)->0) as u8)
    } else {
        None
    }
}

/// The outcome of reading `n` two-byte hex pairs from the UTF-8 bytes `b`
/// (`u8::from_str_radix(&s[2i..2i + 2], 16)` for each `i`): the bytes, a
/// refusal at the first pair that is no hex number, or a panic where a pair
/// boundary falls inside a multi-byte character.
pub enum PairsOutcome {
    Bytes(Seq<u8>),
    Refused,
    Panics,
}

pub open spec fn pairs_from(b: Seq<u8>, n: int, i: int) -> PairsOutcome
    decreases n - i,
{
    if i >= n || b.len() < 2 * n {
        PairsOutcome::Bytes(seq![])
    } else if 2 * i + 2 < b.len() && is_continuation_byte(b[2 * i + 2]) {
        PairsOutcome::Panics
    } else {
        match hex_pair(b[2 * i], b[2 * i + 1]) {
            None => PairsOutcome::Refused,
            Some(x) => match pairs_from(b, n, i + 1) {
                PairsOutcome::Bytes(rest) => PairsOutcome::Bytes(seq![x] + rest),
                other => other,
            },
        }
    }
}

pub open spec fn prepend_pairs(p: Seq<u8>, o: PairsOutcome) -> PairsOutcome {
    match o {
        PairsOutcome::Bytes(r) => PairsOutcome::Bytes(p + r),
        other => other,
    }
}

fn hex_byte_exec(b: u8) -> (r: Option<u8>)
    ensures
        match r {
            Some(v) => hex_byte(b) == Some(v as int),
            None => hex_byte(b) is None,
        },
{
    if 0x30 <= b && b <= 0x39 {
        Some(b - 0x30)
    } else if 0x61 <= b && b <= 0x66 {
        Some(b - 0x61 + 10)
    } else if 0x41 <= b && b <= 0x46 {
        Some(b - 0x41 + 10)
    } else {
        None
    }
}

fn hex_pair_exec(b0: u8, b1: u8) -> (r: Option<u8>)
    ensures
        r == hex_pair(b0, b1),
{
    match (hex_byte_exec(b0), hex_byte_exec(b1)) {
        (_, None) => None,
        (None, Some(y)) => if b0 == 0x2b {
            Some(y)
        } else {
            None
        },
        (Some(x), Some(y)) => Some(x * 16 + y),
    }
}

/// Reads `n` hex pairs from `b` into `out`; `false` where a pair is no hex
/// number. The caller rules out the panicking inputs.
fn read_pairs(b: &[u8], n: usize, out: &mut [u8])
    -> (ok: bool)
    requires
        n <= 8,
        b@.len() == 2 * n,
        old(out)@.len() == n,
        !(pairs_from(b@, n as int, 0) is Panics),
    ensures
        final(out)@.len() == n,
        ok == (pairs_from(b@, n as int, 0) is Bytes),
        ok ==> pairs_from(b@, n as int, 0) == PairsOutcome::Bytes(final(out)@),
{
    let mut i: usize = 0;
    while i < n
        invariant
            n <= 8,
            b@.len() == 2 * n,
            out@.len() == n,
            0 <= i <= n,
            pairs_from(b@, n as int, 0) == prepend_pairs(out@.take(i as int), pairs_from(b@, n as int, i as int)),
            !(pairs_from(b@, n as int, 0) is Panics),
        decreases n - i,
    {
        let ghost before = pairs_from(b@, n as int, i as int);
        let x = hex_pair_exec(b[2 * i], b[2 * i + 1]);
        proof {
            if 2 * i + 2 < b@.len() && is_continuation_byte(b@[2 * i + 2]) {
                assert(before is Panics);
            }
        }
        match x {
            None => {
                proof {
                    assert(before is Refused);
                }
                return false;
            },
            Some(v) => {
                let ghost taken = out@.take(i as int);
                out[i] = v;
                proof {
                    assert(out@.take(i as int) =~= taken);
                    assert(out@.take(i + 1) =~= taken.push(v));
                    match pairs_from(b@, n as int, i + 1) {
                        PairsOutcome::Bytes(rest) => {
                            assert(before == PairsOutcome::Bytes(seq![v] + rest));
                            assert(taken + (seq![v] + rest) =~= taken.push(v) + rest);
                        },
                        _ => {},
                    }
                }
                i = i + 1;
            },
        }
    }
    proof {
        assert(pairs_from(b@, n as int, n as int) == PairsOutcome::Bytes(seq![]));
        assert(out@.take(n as int) =~= out@);
        assert(out@ + seq![] =~= out@);
    }
    true
}

/// What `LoxUuid::parse` does with a string.
pub enum UuidParse {
    Parsed { time: u32, mid: u16, seq: u16, tail: Seq<u8> },
    /// Refused with this message.
    Refused(Seq<char>),
    /// A tail pair boundary falls inside a multi-byte character (the
    /// original slices the string there and panics).
    Panics,
}

pub open spec fn uuid_parse(s: Seq<char>) -> UuidParse {
    let parts = split_on(s, '-');
    if parts.len() != 4 {
        UuidParse::Refused("expected 4 segments"@)
    } else if encode_utf8(parts[0]).len() != 8 || encode_utf8(parts[1]).len() != 4
        || encode_utf8(parts[2]).len() != 4 || encode_utf8(parts[3]).len() != 16 {
        UuidParse::Refused("expected segment lengths 8-4-4-16"@)
    } else if parse_unsigned(parts[0], true, 0xffff_ffff) is None {
        UuidParse::Refused("segment 1 is not hex"@)
    } else if parse_unsigned(parts[1], true, 0xffff) is None {
        UuidParse::Refused("segment 2 is not hex"@)
    } else if parse_unsigned(parts[2], true, 0xffff) is None {
        UuidParse::Refused("segment 3 is not hex"@)
    } else {
        match pairs_from(encode_utf8(parts[3]), 8, 0) {
            PairsOutcome::Panics => UuidParse::Panics,
            PairsOutcome::Refused => UuidParse::Refused("segment 4 is not hex"@),
            PairsOutcome::Bytes(tail) => UuidParse::Parsed {
                time: parse_unsigned(parts[0], true, 0xffff_ffff)->0 as u32,
                mid: parse_unsigned(parts[1], true, 0xffff)->0 as u16,
                seq: parse_unsigned(parts[2], true, 0xffff)->0 as u16,
                tail,
            },
        }
    }
}

/// The canonical text form: lowercase hex, `8-4-4-16`.
pub open spec fn uuid_text(time: u32, mid: u16, seq: u16, tail: Seq<u8>) -> Seq<char> {
    hex_fixed(time as nat, 8) + seq!['-'] + hex_fixed(mid as nat, 4) + seq!['-'] + hex_fixed(
        seq as nat,
        4,
    ) + seq!['-'] + tail_text(tail)
}

pub open spec fn tail_text(tail: Seq<u8>) -> Seq<char>
    decreases tail.len(),
{
    if tail.len() == 0 {
        seq![]
    } else {
        tail_text(tail.drop_last()) + hex_fixed(tail.last() as nat, 2)
    }
}

fn uuid_err(s: &str, msg: &str) -> (e: Error)
    ensures
        e == (Error::Uuid { value: e->Uuid_value, msg: e->Uuid_msg }),
        e->Uuid_value@ == s@,
        e->Uuid_msg@ == msg@,
{
    Error::Uuid { value: string_of(s), msg: string_of(msg) }
}

impl LoxUuid {
    /// Parse the `8-4-4-16` text form.
    pub fn parse(s: &str) -> (r: Result<LoxUuid>)
        requires
            !(uuid_parse(s@) is Panics),
        ensures
            match r {
                Ok(u) => uuid_parse(s@) == (UuidParse::Parsed {
                    time: u.time,
                    mid: u.mid,
                    seq: u.seq,
                    tail: u.tail@,
                }),
                Err(e) => uuid_parse(s@) is Refused && e is Uuid && e->Uuid_value@ == s@
                    && e->Uuid_msg@ == uuid_parse(s@)->Refused_0,
            },
    {
        let parts = split_char(s, '-');
        if parts.len() != 4 {
            return Err(uuid_err(s, "expected 4 segments"));
        }
        if parts[0].as_str().as_bytes().len() != 8 || parts[1].as_str().as_bytes().len() != 4 || parts[2].as_str().as_bytes().len()
            != 4 || parts[3].as_str().as_bytes().len() != 16 {
            return Err(uuid_err(s, "expected segment lengths 8-4-4-16"));
        }
        proof {
            assert(parts@[0]@ == split_on(s@, '-')[0]);
            assert(parts@[1]@ == split_on(s@, '-')[1]);
            assert(parts@[2]@ == split_on(s@, '-')[2]);
            assert(parts@[3]@ == split_on(s@, '-')[3]);
        }
        let a = chars_of(parts[0].as_str());
        let time = match parse_unsigned_exec(&a, true, 0xffff_ffff) {
            Some(v) => v as u32,
            None => {
                proof {
                    assert(uuid_parse(s@) == UuidParse::Refused("segment 1 is not hex"@));
                }
                return Err(uuid_err(s, "segment 1 is not hex"));
            },
        };
        let b = chars_of(parts[1].as_str());
        let mid = match parse_unsigned_exec(&b, true, 0xffff) {
            Some(v) => v as u16,
            None => {
                proof {
                    assert(uuid_parse(s@) == UuidParse::Refused("segment 2 is not hex"@));
                }
                return Err(uuid_err(s, "segment 2 is not hex"));
            },
        };
        let c = chars_of(parts[2].as_str());
        let seq = match parse_unsigned_exec(&c, true, 0xffff) {
            Some(v) => v as u16,
            None => {
                proof {
                    assert(uuid_parse(s@) == UuidParse::Refused("segment 3 is not hex"@));
                }
                return Err(uuid_err(s, "segment 3 is not hex"));
            },
        };
        let d = parts[3].as_str().as_bytes();
        let mut tail = [0u8; 8];
        if !read_pairs(d, 8, &mut tail) {
            return Err(uuid_err(s, "segment 4 is not hex"));
        }
        Ok(LoxUuid { time, mid, seq, tail })
    }

    /// What segment 4 says this UUID names.
    pub fn tail_kind(&self) -> (k: TailKind)
        ensures
            tail_kind_matches(self.tail@, k),
    {
        let t = self.tail;
        let six = [t[2], t[3], t[4], t[5], t[6], t[7]];
        proof {
            assert(six@ =~= t@.subrange(2, 8));
        }
        if t[0] == 0xff && t[1] == 0xff {
            TailKind::Object { suffix: six }
        } else if t[1] == 0xff {
            TailKind::Port { index: t[0], entity: six }
        } else {
            TailKind::Other(t)
        }
    }

    /// The connector index, if this is a port UUID.
    pub fn connector_index(&self) -> (r: Option<u8>)
        ensures
            r == (if self.tail@[1] == 0xff && self.tail@[0] != 0xff {
                Some(self.tail@[0])
            } else {
                None
            }),
    {
        match self.tail_kind() {
            TailKind::Port { index, .. } => Some(index),
            _ => None,
        }
    }

    /// Creation time as a Unix timestamp.
    pub fn created_unix(&self) -> (r: i64)
        ensures
            r == LOXONE_EPOCH_UNIX + self.time,
    {
        LOXONE_EPOCH_UNIX + self.time as i64
    }

    /// The canonical text form (what `Display` prints).
    pub fn to_string(&self) -> (r: String)
        ensures
            r@ == uuid_text(self.time, self.mid, self.seq, self.tail@),
    {
        let mut out = String::new();
        push_hex_fixed(&mut out, self.time as u64, 8);
        push_str(&mut out, "-");
        push_hex_fixed(&mut out, self.mid as u64, 4);
        push_str(&mut out, "-");
        push_hex_fixed(&mut out, self.seq as u64, 4);
        push_str(&mut out, "-");
        let ghost head = out@;
        let mut i: usize = 0;
        while i < 8
            invariant
                0 <= i <= 8,
                out@ == head + tail_text(self.tail@.take(i as int)),
            decreases 8 - i,
        {
            proof {
                assert(self.tail@.take(i + 1).drop_last() =~= self.tail@.take(i as int));
            }
            push_hex_fixed(&mut out, self.tail[i] as u64, 2);
            i = i + 1;
        }
        proof {
            reveal_strlit("-");
            assert(self.tail@.take(8) =~= self.tail@);
            assert(out@ =~= uuid_text(self.time, self.mid, self.seq, self.tail@));
        }
        out
    }
}

/// `k` is the classification of the 8-byte tail `t`.
pub open spec fn tail_kind_matches(t: Seq<u8>, k: TailKind) -> bool {
    match k {
        TailKind::Object { suffix } => t[0] == 0xff && t[1] == 0xff && suffix@ == t.subrange(2, 8),
        TailKind::Port { index, entity } => !(t[0] == 0xff && t[1] == 0xff) && t[1] == 0xff
            && index == t[0] && entity@ == t.subrange(2, 8),
        TailKind::Other(a) => t[1] != 0xff && a@ == t,
    }
}

/// What `parse_serial` does with a string.
pub open spec fn serial_parse(s: Seq<char>) -> PairsOutcome {
    if encode_utf8(s).len() != 12 {
        PairsOutcome::Refused
    } else {
        pairs_from(encode_utf8(s), 6, 0)
    }
}

/// Parse a Miniserver serial such as `"504F94A26236"` into 6 bytes.
pub fn parse_serial(s: &str) -> (r: Result<[u8; 6]>)
    requires
        !(serial_parse(s@) is Panics),
    ensures
        match r {
            Ok(b) => serial_parse(s@) == PairsOutcome::Bytes(b@),
            Err(e) => serial_parse(s@) is Refused && e is Uuid && e->Uuid_value@ == s@
                && e->Uuid_msg@ == "expected 12 hex digits (Miniserver serial)"@,
        },
{
    let bytes = s.as_bytes();
    if bytes.len() != 12 {
        return Err(uuid_err(s, "expected 12 hex digits (Miniserver serial)"));
    }
    let mut out = [0u8; 6];
    if !read_pairs(bytes, 6, &mut out) {
        return Err(uuid_err(s, "expected 12 hex digits (Miniserver serial)"));
    }
    Ok(out)
}

/// Whether `parse_serial` would slice `s` inside a multi-byte character.
pub fn serial_parse_panics(s: &str) -> (r: bool)
    ensures
        r == (serial_parse(s@) is Panics),
{
    let b = s.as_bytes();
    if b.len() != 12 {
        return false;
    }
    pairs_panic(b, 6)
}

/// Whether `LoxUuid::parse` would slice `s` inside a multi-byte character.
pub fn uuid_parse_panics(s: &str) -> (r: bool)
    ensures
        r == (uuid_parse(s@) is Panics),
{
    let parts = split_char(s, '-');
    if parts.len() != 4 {
        return false;
    }
    proof {
        assert(parts@[0]@ == split_on(s@, '-')[0]);
        assert(parts@[1]@ == split_on(s@, '-')[1]);
        assert(parts@[2]@ == split_on(s@, '-')[2]);
        assert(parts@[3]@ == split_on(s@, '-')[3]);
    }
    if parts[0].as_str().as_bytes().len() != 8 || parts[1].as_str().as_bytes().len() != 4
        || parts[2].as_str().as_bytes().len() != 4 || parts[3].as_str().as_bytes().len() != 16 {
        return false;
    }
    let a = chars_of(parts[0].as_str());
    let b = chars_of(parts[1].as_str());
    let c = chars_of(parts[2].as_str());
    if parse_unsigned_exec(&a, true, 0xffff_ffff).is_none() || parse_unsigned_exec(&b, true, 0xffff).is_none()
        || parse_unsigned_exec(&c, true, 0xffff).is_none() {
        return false;
    }
    pairs_panic(parts[3].as_str().as_bytes(), 8)
}

fn pairs_panic(b: &[u8], n: usize) -> (r: bool)
    requires
        n <= 8,
        b@.len() == 2 * n,
    ensures
        r == (pairs_from(b@, n as int, 0) is Panics),
{
    let mut i: usize = 0;
    while i < n
        invariant
            n <= 8,
            b@.len() == 2 * n,
            0 <= i <= n,
            (pairs_from(b@, n as int, 0) is Panics) == (pairs_from(b@, n as int, i as int) is Panics),
        decreases n - i,
    {
        if 2 * i + 2 < b.len() && b[2 * i + 2] >= 0x80 && b[2 * i + 2] <= 0xbf {
            return true;
        }
        if hex_pair_exec(b[2 * i], b[2 * i + 1]).is_none() {
            return false;
        }
        i = i + 1;
    }
    false
}

/// The SHA-256 digest of a byte string.
pub uninterp spec fn sha256(data: Seq<u8>) -> Seq<u8>;

/// `sha2::Sha256::digest`: the 32-byte SHA-256 digest of `data`.
#[verifier::external_body]
pub(crate) fn sha256_digest(data: &[u8]) -> (r: Vec<u8>)
    ensures
        r@ == sha256(data@),
        r@.len() == 32,
{
    Sha256::digest(data).to_vec()
}

/// Derive the 6-byte per-object connector entity from a slug: the first
/// six bytes of the SHA-256 of its UTF-8 text. Deterministic, so re-minting
/// the same slug yields the same port UUID family.
pub fn entity_for_slug(slug: &str) -> (r: [u8; 6])
    ensures
        r@ == sha256(encode_utf8(slug@)).subrange(0, 6),
{
    let d = sha256_digest(slug.as_bytes());
    let r = [d[0], d[1], d[2], d[3], d[4], d[5]];
    proof {
        assert(r@ =~= sha256(encode_utf8(slug@)).subrange(0, 6));
    }
    r
}

/// Deterministic UUID minter: the same `(machine, time, sequence of calls)`
/// always yields the same UUIDs.
#[derive(Debug, Clone)]
pub struct Minter {
    machine: [u8; 6],
    time: u32,
    counter: u32,
}

/// The minter's segment-1 value for a Unix time: seconds since the Loxone
/// epoch, clamped to the `u32` range.
pub open spec fn minter_time(time_unix: int) -> u32 {
    let t = time_unix - LOXONE_EPOCH_UNIX;
    if t < 0 {
        0
    } else if t > 0xffff_ffff {
        0xffff_ffff
    } else {
        t as u32
    }
}

impl Minter {
    pub closed spec fn machine(&self) -> Seq<u8> {
        self.machine@
    }

    pub closed spec fn time(&self) -> u32 {
        self.time
    }

    /// How many UUIDs this minter has handed out.
    pub closed spec fn counter(&self) -> u32 {
        self.counter
    }

    /// `machine` is stamped into object tails; `time_unix` is the creation
    /// time recorded in segment 1.
    pub fn new(machine: [u8; 6], time_unix: i64) -> (m: Minter)
        requires
            time_unix >= i64::MIN + LOXONE_EPOCH_UNIX,
        ensures
            m.machine() == machine@,
            m.time() == minter_time(time_unix as int),
            m.counter() == 0,
    {
        let t = time_unix - LOXONE_EPOCH_UNIX;
        let time: u32 = if t < 0 {
            0
        } else if t > 0xffff_ffff {
            0xffff_ffff
        } else {
            t as u32
        };
        Minter { machine, time, counter: 0 }
    }

    fn next(&mut self, tail: [u8; 8]) -> (u: LoxUuid)
        requires
            old(self).counter() < 0xffff_ffff,
        ensures
            u.time == old(self).time(),
            u.mid == old(self).counter() / 0x10000,
            u.seq == old(self).counter() % 0x10000,
            u.tail == tail,
            final(self).counter() == old(self).counter() + 1,
            final(self).machine() == old(self).machine(),
            final(self).time() == old(self).time(),
    {
        let c = self.counter;
        let mid = (c >> 16) as u16;
        let seq = (c & 0xffff) as u16;
        proof {
            assert(c >> 16 == c / 0x10000) by (bit_vector);
            assert(c & 0xffff == c % 0x10000) by (bit_vector);
        }
        let uuid = LoxUuid { time: self.time, mid, seq, tail };
        self.counter = c + 1;
        uuid
    }

    /// Mint an object UUID: tail `ff ff` + machine id.
    pub fn mint_object(&mut self) -> (u: LoxUuid)
        requires
            old(self).counter() < 0xffff_ffff,
        ensures
            u.time == old(self).time(),
            u.mid == old(self).counter() / 0x10000,
            u.seq == old(self).counter() % 0x10000,
            u.tail@ == seq![0xffu8, 0xffu8] + old(self).machine(),
            final(self).counter() == old(self).counter() + 1,
            final(self).machine() == old(self).machine(),
            final(self).time() == old(self).time(),
    {
        let m = self.machine;
        let tail = [0xff, 0xff, m[0], m[1], m[2], m[3], m[4], m[5]];
        proof {
            assert(tail@ =~= seq![0xffu8, 0xffu8] + m@);
        }
        self.next(tail)
    }

    /// Mint a port UUID: tail `<index> ff` + entity.
    pub fn mint_port(&mut self, index: u8, entity: [u8; 6]) -> (u: LoxUuid)
        requires
            old(self).counter() < 0xffff_ffff,
        ensures
            u.time == old(self).time(),
            u.mid == old(self).counter() / 0x10000,
            u.seq == old(self).counter() % 0x10000,
            u.tail@ == seq![index, 0xffu8] + entity@,
            final(self).counter() == old(self).counter() + 1,
            final(self).machine() == old(self).machine(),
            final(self).time() == old(self).time(),
    {
        let e = entity;
        let tail = [index, 0xff, e[0], e[1], e[2], e[3], e[4], e[5]];
        proof {
            assert(tail@ =~= seq![index, 0xffu8] + e@);
        }
        self.next(tail)
    }
}

/// Every mint advances the counter, so two mints of one minter never share
/// their `(mid, seq)` pair: distinct counter values give distinct UUIDs.
pub proof fn mints_are_distinct(c1: u32, c2: u32)
    requires
        c1 != c2,
    ensures
        (c1 / 0x10000, c1 % 0x10000) != (c2 / 0x10000, c2 % 0x10000),
{
}

} // verus!
