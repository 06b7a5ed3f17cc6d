//! The lockfile: persistent identity between IR source and compiled config.
//!
//! Everything that must stay stable across compiles but does not belong in
//! source text lives here. Generated, but meant to be committed, so CI and
//! collaborators emit the same UUIDs.
//!
//! Invariants (enforced by the compiler):
//!
//! 1. Slug present in the lock → the compiler never re-mints; it emits
//!    exactly the recorded object *and* port UUIDs.
//! 2. New slug → mint UUIDs, advance `NextObj` monotonically.
//! 3. Slug gone from source → hard error, unless the removal or rename is
//!    declared in source or resolved out-of-band via
//!    [`Lockfile::remove_object`] / [`Lockfile::rename_object`].
//! 4. Counters never decrease.
use crate::doc::Counters;
use crate::error::{Error, Result};
use crate::strmap::{map_get, map_insert, map_remove, StrMap};
use crate::text::{hex_fixed, push_hex_fixed, push_str, string_of};
use crate::uuid::{sha256, sha256_digest};
use vstd::prelude::*;

verus! {

pub const LOCKFILE_VERSION: u32 = 1;

#[derive(Debug, Clone, PartialEq, Eq)]
pub struct Lockfile {
    pub lockfile_version: u32,
    pub target: Target,
    pub counters: LockCounters,
    /// Managed blocks: slug → identity.
    pub objects: StrMap<LockedObject>,
    /// Resolved externals: slug → pinned identity.
    pub externals: StrMap<LockedExternal>,
    /// Wires the compiler wrote onto ports of *external* objects
    /// (`from`/`to` are port UUIDs).
    pub extern_wires: Vec<LockedWire>,
    /// Original `Def=` values of extern ports before the first assignment,
    /// keyed by port UUID (`None` = the attribute was absent).
    pub set_originals: StrMap<Option<String>>,
    /// Objects the last compile removed, keyed by object UUID: until the
    /// compiled output is pushed, the deployed config still carries them.
    pub removed: StrMap<Tombstone>,
    /// Extern-port assignments the last compile removed, keyed by port
    /// UUID, with the `Def=` value to restore.
    pub removed_sets: StrMap<Option<String>>,
}

/// What the lock remembers of a removed managed block.
#[derive(Debug, Clone, PartialEq, Eq)]
pub struct Tombstone {
    pub slug: String,
    pub block_type: String,
}

#[derive(Debug, Clone, PartialEq, Eq)]
pub struct Target {
    pub config_version: Option<String>,
    pub miniserver_serial: Option<String>,
    pub source_config_sha256: Option<String>,
}

#[derive(Debug, Clone, Copy, PartialEq, Eq)]
pub struct LockCounters {
    pub next_obj: u64,
    pub next_const: u64,
    pub next_note: u64,
    pub next_mem: u64,
}

#[derive(Debug, Clone, PartialEq, Eq)]
pub struct LockedObject {
    pub uuid: String,
    pub block_type: String,
    /// Port key → port UUID. Every port gets its own pinned UUID.
    pub ports: StrMap<String>,
    pub layout: Option<Layout>,
    /// The page the block was placed on.
    pub page_uuid: Option<String>,
    /// Whether the block was created for an expression (not declared).
    pub expr_owned: bool,
}

#[derive(Debug, Clone, Copy, PartialEq, Eq)]
pub struct Layout {
    pub px: i64,
    pub py: i64,
    pub px2: i64,
    pub py2: i64,
}

#[derive(Debug, Clone, PartialEq, Eq)]
pub struct LockedExternal {
    pub uuid: String,
    /// How the extern was resolved: `"uuid"`, `"iname"`, or `"title"`.
    pub matched_by: String,
    pub title_at_match: Option<String>,
    pub iname_at_match: Option<String>,
}

#[derive(Debug, Clone, PartialEq, Eq, PartialOrd, Ord)]
pub struct LockedWire {
    pub from: String,
    pub to: String,
}

impl Default for Target {
    fn default() -> (t: Target)
        ensures
            t.config_version is None && t.miniserver_serial is None
                && t.source_config_sha256 is None,
    {
        Target { config_version: None, miniserver_serial: None, source_config_sha256: None }
    }
}

impl Default for LockCounters {
    fn default() -> (c: LockCounters)
        ensures
            c.next_obj == 0 && c.next_const == 0 && c.next_note == 0 && c.next_mem == 0,
    {
        LockCounters { next_obj: 0, next_const: 0, next_note: 0, next_mem: 0 }
    }
}

/// The message of a missing-slug refusal.
pub open spec fn missing_msg(slug: Seq<char>) -> Seq<char> {
    "no managed object `"@ + slug + "` in lock"@
}

/// The message of a rename onto a taken slug.
pub open spec fn taken_msg(slug: Seq<char>) -> Seq<char> {
    "slug `"@ + slug + "` already exists in lock"@
}

pub open spec fn max_u64(a: u64, b: u64) -> u64 {
    if a >= b {
        a
    } else {
        b
    }
}

/// The lower-case hexadecimal notation of a byte string, two digits a byte.
pub open spec fn hex_bytes(b: Seq<u8>) -> Seq<char>
    decreases b.len(),
{
    if b.len() == 0 {
        seq![]
    } else {
        hex_bytes(b.drop_last()) + hex_fixed(b.last() as nat, 2)
    }
}

impl Lockfile {
    pub fn new() -> (l: Lockfile)
        ensures
            l.lockfile_version == LOCKFILE_VERSION,
            l.target.config_version is None,
            l.target.miniserver_serial is None,
            l.target.source_config_sha256 is None,
            l.counters == (LockCounters { next_obj: 0, next_const: 0, next_note: 0, next_mem: 0 }),
            l.objects@.len() == 0,
            l.externals@.len() == 0,
            l.extern_wires@.len() == 0,
            l.set_originals@.len() == 0,
            l.removed@.len() == 0,
            l.removed_sets@.len() == 0,
    {
        Lockfile {
            lockfile_version: LOCKFILE_VERSION,
            target: Target::default(),
            counters: LockCounters::default(),
            objects: StrMap::new(),
            externals: StrMap::new(),
            extern_wires: Vec::new(),
            set_originals: StrMap::new(),
            removed: StrMap::new(),
            removed_sets: StrMap::new(),
        }
    }

    /// Explicitly forget a managed block. The next compile will then treat
    /// its absence from source as intended.
    pub fn remove_object(&mut self, slug: &str) -> (r: Result<LockedObject>)
        ensures
            match r {
                Ok(o) => map_get(old(self).objects@, slug@) == Some(o) && final(self).objects@
                    == map_remove(old(self).objects@, slug@),
                Err(e) => map_get(old(self).objects@, slug@) is None && final(self).objects@
                    == old(self).objects@ && (e matches Error::Lock(m) && m@ == missing_msg(slug@)),
            },
            final(self).lockfile_version == old(self).lockfile_version,
            final(self).target == old(self).target,
            final(self).counters == old(self).counters,
            final(self).externals == old(self).externals,
            final(self).extern_wires == old(self).extern_wires,
            final(self).set_originals == old(self).set_originals,
            final(self).removed == old(self).removed,
            final(self).removed_sets == old(self).removed_sets,
    {
        match self.objects.remove(slug) {
            Some(o) => Ok(o),
            None => {
                let mut m = string_of("no managed object `");
                push_str(&mut m, slug);
                push_str(&mut m, "` in lock");
                Err(Error::Lock(m))
            },
        }
    }

    /// Rename a managed block while keeping its identity (UUIDs survive).
    pub fn rename_object(&mut self, old_slug: &str, new_slug: &str) -> (r: Result<()>)
        ensures
            match r {
                Ok(()) => map_get(old(self).objects@, new_slug@) is None && (map_get(
                    old(self).objects@,
                    old_slug@,
                ) matches Some(o) && final(self).objects@ == map_insert(
                    map_remove(old(self).objects@, old_slug@),
                    new_slug@,
                    o,
                )),
                Err(e) => final(self).objects@ == old(self).objects@ && if map_get(
                    old(self).objects@,
                    new_slug@,
                ) is Some {
                    (e matches Error::Lock(m) && m@ == taken_msg(new_slug@))
                } else {
                    map_get(old(self).objects@, old_slug@) is None && (e matches Error::Lock(m)
                        && m@ == missing_msg(old_slug@))
                },
            },
            final(self).lockfile_version == old(self).lockfile_version,
            final(self).target == old(self).target,
            final(self).counters == old(self).counters,
            final(self).externals == old(self).externals,
            final(self).extern_wires == old(self).extern_wires,
            final(self).set_originals == old(self).set_originals,
            final(self).removed == old(self).removed,
            final(self).removed_sets == old(self).removed_sets,
    {
        if self.objects.contains_key(new_slug) {
            let mut m = string_of("slug `");
            push_str(&mut m, new_slug);
            push_str(&mut m, "` already exists in lock");
            return Err(Error::Lock(m));
        }
        let obj = self.remove_object(old_slug)?;
        self.objects.insert(string_of(new_slug), obj);
        Ok(())
    }

    /// Raise lock counters to at least the document's (never decrease).
    pub fn absorb_counters(&mut self, doc: Counters)
        ensures
            final(self).counters.next_obj == max_u64(old(self).counters.next_obj, doc.next_obj),
            final(self).counters.next_const == max_u64(
                old(self).counters.next_const,
                doc.next_const,
            ),
            final(self).counters.next_note == max_u64(old(self).counters.next_note, doc.next_note),
            final(self).counters.next_mem == max_u64(old(self).counters.next_mem, doc.next_mem),
            final(self).counters.next_obj >= old(self).counters.next_obj,
            final(self).counters.next_const >= old(self).counters.next_const,
            final(self).counters.next_note >= old(self).counters.next_note,
            final(self).counters.next_mem >= old(self).counters.next_mem,
            final(self).lockfile_version == old(self).lockfile_version,
            final(self).target == old(self).target,
            final(self).objects == old(self).objects,
            final(self).externals == old(self).externals,
            final(self).extern_wires == old(self).extern_wires,
            final(self).set_originals == old(self).set_originals,
            final(self).removed == old(self).removed,
            final(self).removed_sets == old(self).removed_sets,
    {
        let c = self.counters;
        self.counters = LockCounters {
            next_obj: if c.next_obj >= doc.next_obj {
                c.next_obj
            } else {
                doc.next_obj
            },
            next_const: if c.next_const >= doc.next_const {
                c.next_const
            } else {
                doc.next_const
            },
            next_note: if c.next_note >= doc.next_note {
                c.next_note
            } else {
                doc.next_note
            },
            next_mem: if c.next_mem >= doc.next_mem {
                c.next_mem
            } else {
                doc.next_mem
            },
        };
    }
}

/// Lower-case hex SHA-256 of `bytes` (64 characters).
pub fn sha256_hex(bytes: &[u8]) -> (r: String)
    ensures
        r@ == hex_bytes(sha256(bytes@)),
{
    let digest = sha256_digest(bytes);
    let mut out = String::new();
    let mut i: usize = 0;
    while i < digest.len()
        invariant
            0 <= i <= digest@.len(),
            digest@ == sha256(bytes@),
            out@ == hex_bytes(digest@.take(i as int)),
        decreases digest@.len() - i,
    {
        push_hex_fixed(&mut out, digest[i] as u64, 2);
        proof {
            assert(digest@.take(i + 1).drop_last() =~= digest@.take(i as int));
        }
        i = i + 1;
    }
    proof {
        assert(digest@.take(digest@.len() as int) =~= digest@);
    }
    out
}

} // verus!
