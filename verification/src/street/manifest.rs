use vstd::prelude::*;

use crate::seqs::keep_where;
use crate::sorting::{sort_by_key, sorted_by_key, Keyed};
use crate::strmap::{str_eq, StrMap};
use crate::text::owned;

verus! {

/// One street of the manifest: its display name and the file it is read from.
pub struct StreetEntry {
    pub name: String,
    pub filename: String,
}

/// The list of streets that can be loaded, keyed by street ID.
pub struct StreetManifest {
    pub version: u32,
    pub streets: StrMap<StreetEntry>,
}

impl StreetManifest {
    /// Well-formed: no street ID occurs twice.
    pub open spec fn wf(&self) -> bool {
        self.streets.wf()
    }

    /// The manifest with no street, at version 1.
    pub fn empty() -> (m: Self)
        ensures
            m.wf(),
            m.version == 1,
            m.streets@ == Map::<Seq<char>, StreetEntry>::empty(),
    {
        StreetManifest { version: 1, streets: StrMap::new() }
    }
}

/// Whether a file name could lead out of the streets directory: it holds
/// `..`, `/` or `\\`.
pub open spec fn unsafe_file_name(f: Seq<char>) -> bool {
    exists|i: int|
        0 <= i < f.len() && (#[trigger] f[i] == '/' || f[i] == '\\' || (f[i] == '.' && i + 1 < f.len() && f[i + 1] == '.'))
}

/// Whether a file name could lead out of the streets directory.
pub fn is_unsafe_file_name(f: &str) -> (b: bool)
    ensures
        b == unsafe_file_name(f@),
{
    let n = f.unicode_len();
    let mut i: usize = 0;
    while i < n
        invariant
            n == f@.len(),
            0 <= i <= n,
            forall|j: int|
                0 <= j < i ==> !(#[trigger] f@[j] == '/' || f@[j] == '\\' || (f@[j] == '.' && j + 1 < f@.len()
                    && f@[j + 1] == '.')),
        decreases n - i,
    {
        let c = f.get_char(i);
        if c == '/' || c == '\\' || (c == '.' && i + 1 < n && f.get_char(i + 1) == '.') {
            return true;
        }
        i = i + 1;
    }
    false
}

/// The file that holds the imported street `name`: unknown streets are
/// refused, and so is a file name with unsafe path components.
pub fn street_file(manifest: &StreetManifest, name: &str) -> (r: Result<String, String>)
    ensures
        !manifest.streets@.contains_key(name@) ==> (r matches Err(e) && e@ == "Unknown street: "@ + name@),
        manifest.streets@.contains_key(name@) ==> {
            let f = manifest.streets@[name@].filename@;
            if unsafe_file_name(f) {
                (r matches Err(e) && e@ == "Manifest filename for "@ + name@ + " contains unsafe path components"@)
            } else {
                (r matches Ok(p) && p@ == f)
            }
        },
{
    match manifest.streets.get_last(name) {
        None => Err(crate::text::concat2("Unknown street: ", name)),
        Some(entry) => {
            if is_unsafe_file_name(entry.filename.as_str()) {
                let mut e = crate::text::concat2("Manifest filename for ", name);
                crate::text::push_str(&mut e, " contains unsafe path components");
                Err(e)
            } else {
                Ok(entry.filename.clone())
            }
        },
    }
}

/// The two demo streets that always ship with the game.
#[derive(Clone, Copy, Debug, PartialEq, Eq, Structural)]
pub enum DemoStreet {
    Meadow,
    Heights,
}

/// The demo street a name stands for: by its short name or its street ID.
pub open spec fn demo_street_spec(name: Seq<char>) -> Option<DemoStreet> {
    if name == "demo_meadow"@ || name == "LADEMO001"@ {
        Some(DemoStreet::Meadow)
    } else if name == "demo_heights"@ || name == "LADEMO002"@ {
        Some(DemoStreet::Heights)
    } else {
        None
    }
}

/// The demo street a name stands for, if any.
pub fn demo_street(name: &str) -> (r: Option<DemoStreet>)
    ensures
        r == demo_street_spec(name@),
{
    if str_eq(name, "demo_meadow") || str_eq(name, "LADEMO001") {
        Some(DemoStreet::Meadow)
    } else if str_eq(name, "demo_heights") || str_eq(name, "LADEMO002") {
        Some(DemoStreet::Heights)
    } else {
        None
    }
}

/// The file that places the entities of street `name`: each demo street
/// has one; other streets have no entities.
pub fn entity_placement_file(name: &str) -> (r: Option<String>)
    ensures
        match demo_street_spec(name@) {
            Some(DemoStreet::Meadow) => r matches Some(f) && f@ == "demo_meadow_entities.json"@,
            Some(DemoStreet::Heights) => r matches Some(f) && f@ == "demo_heights_entities.json"@,
            None => r is None,
        },
{
    match demo_street(name) {
        Some(DemoStreet::Meadow) => Some(owned("demo_meadow_entities.json")),
        Some(DemoStreet::Heights) => Some(owned("demo_heights_entities.json")),
        None => None,
    }
}

/// A street offered for loading: its ID and display name.
pub struct StreetListEntry {
    pub tsid: String,
    pub name: String,
}

impl Keyed for StreetListEntry {
    open spec fn key(&self) -> Seq<char> {
        self.name@
    }

    fn key_str(&self) -> (r: &str) {
        self.name.as_str()
    }
}

/// Whether a street ID is one of the streets built into the game.
pub open spec fn is_demo_tsid(t: Seq<char>) -> bool {
    t == "LADEMO001"@ || t == "LADEMO002"@
}

/// The test "the manifest entry is not a built-in street".
pub open spec fn not_demo_entry() -> spec_fn((String, StreetEntry)) -> bool {
    |e: (String, StreetEntry)| !is_demo_tsid(e.0@)
}

/// `u` lists the built-in streets, then each manifest street that is not a
/// built-in one, in manifest order.
pub open spec fn lists_streets(u: Seq<StreetListEntry>, entries: Seq<(String, StreetEntry)>) -> bool {
    let extra = keep_where(entries, not_demo_entry());
    &&& u.len() == 2 + extra.len()
    &&& u[0].tsid@ == "LADEMO001"@ && u[0].name@ == "Demo Meadow"@
    &&& u[1].tsid@ == "LADEMO002"@ && u[1].name@ == "Demo Heights"@
    &&& forall|i: int| 0 <= i < extra.len() ==> (#[trigger] u[i + 2]).tsid@ == extra[i].0@ && u[i
        + 2].name@ == extra[i].1.name@
}

/// The streets that can be loaded: the two built into the game and those of
/// the manifest (a manifest entry with a built-in ID is skipped), ordered by
/// name.
pub fn street_list(manifest: &StreetManifest) -> (r: Vec<StreetListEntry>)
    ensures
        sorted_by_key(r@),
        exists|u: Seq<StreetListEntry>| #[trigger] lists_streets(u, manifest.streets.seq()) && r@.to_multiset()
            == u.to_multiset(),
{
    let mut entries: Vec<StreetListEntry> = Vec::new();
    entries.push(StreetListEntry { tsid: owned("LADEMO001"), name: owned("Demo Meadow") });
    entries.push(StreetListEntry { tsid: owned("LADEMO002"), name: owned("Demo Heights") });
    let src = &manifest.streets.entries;
    let n = src.len();
    let mut i: usize = 0;
    proof {
        assert(src@.take(0) =~= Seq::<(String, StreetEntry)>::empty());
    }
    while i < n
        invariant
            n == src@.len(),
            src@ == manifest.streets.seq(),
            0 <= i <= n,
            ({
                let extra = keep_where(src@.take(i as int), not_demo_entry());
                &&& entries@.len() == 2 + extra.len()
                &&& entries@[0].tsid@ == "LADEMO001"@ && entries@[0].name@ == "Demo Meadow"@
                &&& entries@[1].tsid@ == "LADEMO002"@ && entries@[1].name@ == "Demo Heights"@
                &&& forall|k: int| 0 <= k < extra.len() ==> (#[trigger] entries@[k + 2]).tsid@
                    == extra[k].0@ && entries@[k + 2].name@ == extra[k].1.name@
            }),
        decreases n - i,
    {
        let tsid = src[i].0.as_str();
        proof {
            assert(src@.take(i + 1).drop_last() =~= src@.take(i as int));
            assert(src@.take(i + 1).last() == src@[i as int]);
        }
        if !str_eq(tsid, "LADEMO001") && !str_eq(tsid, "LADEMO002") {
            entries.push(StreetListEntry { tsid: owned(tsid), name: src[i].1.name.clone() });
        }
        i = i + 1;
    }
    proof {
        assert(src@.take(n as int) =~= src@);
        assert(lists_streets(entries@, manifest.streets.seq()));
    }
    let ghost u = entries@;
    let r = sort_by_key(entries);
    proof {
        assert(lists_streets(u, manifest.streets.seq()) && r@.to_multiset() == u.to_multiset());
    }
    r
}

} // verus!
