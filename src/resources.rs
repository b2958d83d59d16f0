use vstd::prelude::*;
use vstd::string::StringSliceAdditionalSpecFns;
use vstd::utf8::{decode_utf8, encode_utf8, valid_utf8};
use crate::package::{copy_range, encodable, encode_package, package_bytes, parse_package, parsed_entries};

verus! {

/// A source of game resources, looked up by path.
pub trait Provider {
    /// The resource at `path` as text, if it exists and is text.
    fn read_to_string(&self, path: &str) -> Option<String>;

    /// The bytes of the resource at `path`, if it exists.
    fn read_to_bytes(&self, path: &str) -> Option<Vec<u8>>;

    /// Whether a resource exists at `path`.
    fn contains(&self, path: &str) -> bool;
}

} // verus!

verus! {

#[verifier::external_type_specification]
#[verifier::external_body]
pub struct ExPathBuf(std::path::PathBuf);

/// Resources read from files under a root directory.
pub struct FilesystemProvider {
    root_path: std::path::PathBuf,
}

impl FilesystemProvider {
    /// The root directory.
    pub closed spec fn spec_root_path(&self) -> std::path::PathBuf {
        self.root_path
    }

    /// A provider for the files under `root_path`.
    pub fn new(root_path: std::path::PathBuf) -> (r: Self)
        ensures
            r.spec_root_path() == root_path,
    {
        FilesystemProvider { root_path }
    }

    /// The root directory.
    pub fn root_path(&self) -> (r: &std::path::PathBuf)
        ensures
            *r == self.spec_root_path(),
    {
        &self.root_path
    }
}

/// Relies on `String::from_utf8`: it succeeds exactly on valid UTF-8 and
/// then holds the characters the bytes encode.
#[verifier::external_body]
fn string_from_utf8(bytes: Vec<u8>) -> (r: Option<String>)
    ensures
        match r {
            Some(s) => valid_utf8(bytes@) && s@ == decode_utf8(bytes@),
            None => !valid_utf8(bytes@),
        },
{
    String::from_utf8(bytes).ok()
}

/// The data most recently stored under `name`.
pub open spec fn find_resource(index: Seq<(Seq<char>, Seq<u8>)>, name: Seq<char>) -> Option<Seq<u8>>
    decreases index.len(),
{
    if index.len() == 0 {
        None
    } else if index.last().0 == name {
        Some(index.last().1)
    } else {
        find_resource(index.drop_last(), name)
    }
}

/// Whether every name in a parsed package is valid UTF-8.
pub open spec fn names_valid(entries: Seq<(Seq<u8>, Seq<u8>)>) -> bool {
    forall|i: int| 0 <= i < entries.len() ==> valid_utf8(#[trigger] entries[i].0)
}

/// Parsed entries with their names decoded.
pub open spec fn decode_names(entries: Seq<(Seq<u8>, Seq<u8>)>) -> Seq<(Seq<char>, Seq<u8>)> {
    entries.map_values(|e: (Seq<u8>, Seq<u8>)| (decode_utf8(e.0), e.1))
}

/// Resources packed into one byte string, looked up by name.
pub struct PackagedProvider {
    resource_index: Vec<(String, Vec<u8>)>,
}

impl PackagedProvider {
    /// The resources, in package order.
    pub closed spec fn spec_index(&self) -> Seq<(Seq<char>, Seq<u8>)> {
        self.resource_index@.map_values(|e: (String, Vec<u8>)| (e.0@, e.1@))
    }

    /// Reads the package at the end of `data`, as `parse_package` does;
    /// `None` where that fails or a name is not UTF-8.
    pub fn from_package(data: &[u8]) -> (r: Option<Self>)
        ensures
            match parsed_entries(data@) {
                Some(es) => match r {
                    Some(p) => names_valid(es) && p.spec_index() == decode_names(es),
                    None => !names_valid(es),
                },
                None => r is None,
            },
    {
        let entries = match parse_package(data) {
            Some(es) => es,
            None => return None,
        };
        let ghost es = entries@.map_values(|p: (Vec<u8>, Vec<u8>)| (p.0@, p.1@));
        let mut index: Vec<(String, Vec<u8>)> = Vec::new();
        let mut i: usize = 0;
        while i < entries.len()
            invariant
                i <= entries@.len(),
                es == entries@.map_values(|p: (Vec<u8>, Vec<u8>)| (p.0@, p.1@)),
                parsed_entries(data@) == Some(es),
                index@.map_values(|e: (String, Vec<u8>)| (e.0@, e.1@)) == decode_names(es.take(i as int)),
                forall|k: int| 0 <= k < i ==> valid_utf8(#[trigger] es[k].0),
            decreases entries@.len() - i,
        {
            let name_bytes = copy_range(entries[i].0.as_slice(), 0, entries[i].0.len());
            let ghost nb = name_bytes@;
            assert(es[i as int].0 =~= nb);
            let name = match string_from_utf8(name_bytes) {
                Some(s) => s,
                None => {
                    assert(!valid_utf8(es[i as int].0));
                    return None;
                },
            };
            let data = copy_range(entries[i].1.as_slice(), 0, entries[i].1.len());
            let ghost before = index@.map_values(|e: (String, Vec<u8>)| (e.0@, e.1@));
            let ghost added = (name@, data@);
            index.push((name, data));
            proof {
                assert(es[i as int].1 =~= added.1);
                assert(added == (decode_utf8(es[i as int].0), es[i as int].1));
                assert(es.take(i + 1) =~= es.take(i as int).push(es[i as int]));
                assert(decode_names(es.take(i + 1)) =~= decode_names(es.take(i as int)).push(added));
                assert(index@.map_values(|e: (String, Vec<u8>)| (e.0@, e.1@)) =~= before.push(added));
                assert(index@.map_values(|e: (String, Vec<u8>)| (e.0@, e.1@)) =~= decode_names(
                    es.take(i + 1),
                ));
            }
            i += 1;
        }
        proof {
            assert(es.take(entries@.len() as int) =~= es);
        }
        Some(PackagedProvider { resource_index: index })
    }

    /// The data stored under `path`, the latest where a name repeats.
    pub fn get(&self, path: &str) -> (r: Option<&Vec<u8>>)
        ensures
            match r {
                Some(v) => find_resource(self.spec_index(), path@) == Some(v@),
                None => find_resource(self.spec_index(), path@) is None,
            },
    {
        let ghost idx = self.spec_index();
        let mut i: usize = self.resource_index.len();
        assert(idx.take(i as int) =~= idx);
        while i > 0
            invariant
                i <= self.resource_index@.len(),
                idx == self.spec_index(),
                find_resource(idx, path@) == find_resource(idx.take(i as int), path@),
            decreases i,
        {
            let ghost pre = idx.take(i as int);
            assert(pre.drop_last() =~= idx.take(i - 1));
            assert(pre.last() == (self.resource_index@[i - 1].0@, self.resource_index@[i - 1].1@));
            if crate::tileset::str_equal(self.resource_index[i - 1].0.as_str(), path) {
                return Some(&self.resource_index[i - 1].1);
            }
            i -= 1;
        }
        assert(idx.take(0) =~= Seq::<(Seq<char>, Seq<u8>)>::empty());
        None
    }

    /// The package of `resources`, each a name and its data, with names
    /// stored as their UTF-8 bytes, as `encode_package` builds it.
    pub fn create_packaged_data(resources: &Vec<(String, Vec<u8>)>) -> (r: Option<Vec<u8>>)
        ensures
            ({
                let e = resources@.map_values(|p: (String, Vec<u8>)| (encode_utf8(p.0@), p.1@));
                match r {
                    Some(bytes) => encodable(e) && bytes@ == package_bytes(e),
                    None => !encodable(e),
                }
            }),
    {
        let ghost e = resources@.map_values(|p: (String, Vec<u8>)| (encode_utf8(p.0@), p.1@));
        let mut entries: Vec<(Vec<u8>, Vec<u8>)> = Vec::new();
        let mut i: usize = 0;
        while i < resources.len()
            invariant
                i <= resources@.len(),
                e == resources@.map_values(|p: (String, Vec<u8>)| (encode_utf8(p.0@), p.1@)),
                entries@.map_values(|p: (Vec<u8>, Vec<u8>)| (p.0@, p.1@)) == e.take(i as int),
            decreases resources@.len() - i,
        {
            let name = resources[i].0.as_str().as_bytes();
            let name = copy_range(name, 0, name.len());
            let data = copy_range(resources[i].1.as_slice(), 0, resources[i].1.len());
            entries.push((name, data));
            assert(e.take(i + 1) =~= e.take(i as int).push(e[i as int]));
            assert((name@, data@) == e[i as int]);
            assert(entries@.map_values(|p: (Vec<u8>, Vec<u8>)| (p.0@, p.1@)) =~= e.take(i + 1));
            i += 1;
        }
        assert(e.take(resources@.len() as int) =~= e);
        encode_package(&entries)
    }
}

impl PackagedProvider {
    /// The text stored under `path`: `None` where there is none or it is
    /// not UTF-8.
    pub fn read_text(&self, path: &str) -> (r: Option<String>)
        ensures
            match find_resource(self.spec_index(), path@) {
                None => r is None,
                Some(d) => match r {
                    Some(s) => valid_utf8(d) && s@ == decode_utf8(d),
                    None => !valid_utf8(d),
                },
            },
    {
        match self.get(path) {
            Some(bytes) => {
                let copy = copy_range(bytes.as_slice(), 0, bytes.len());
                assert(copy@ =~= bytes@);
                string_from_utf8(copy)
            },
            None => None,
        }
    }

    /// A copy of the data stored under `path`.
    pub fn read_bytes(&self, path: &str) -> (r: Option<Vec<u8>>)
        ensures
            match r {
                Some(v) => find_resource(self.spec_index(), path@) == Some(v@),
                None => find_resource(self.spec_index(), path@) is None,
            },
    {
        match self.get(path) {
            Some(bytes) => {
                let copy = copy_range(bytes.as_slice(), 0, bytes.len());
                assert(copy@ =~= bytes@);
                Some(copy)
            },
            None => None,
        }
    }

    /// Whether data is stored under `path`.
    pub fn has(&self, path: &str) -> (r: bool)
        ensures
            r == find_resource(self.spec_index(), path@) is Some,
    {
        self.get(path).is_some()
    }
}

impl Provider for PackagedProvider {
    fn read_to_string(&self, path: &str) -> Option<String> {
        self.read_text(path)
    }

    fn read_to_bytes(&self, path: &str) -> Option<Vec<u8>> {
        self.read_bytes(path)
    }

    fn contains(&self, path: &str) -> bool {
        self.has(path)
    }
}

/// Whether no two resources share a name.
pub open spec fn distinct_names(resources: Seq<(Seq<char>, Seq<u8>)>) -> bool {
    forall|i: int, j: int|
        0 <= i < resources.len() && 0 <= j < resources.len() && i != j ==> #[trigger] resources[i].0
            != #[trigger] resources[j].0
}

/// With distinct names, each resource is found under its own name, and no
/// other name is found.
pub proof fn lemma_find_distinct(resources: Seq<(Seq<char>, Seq<u8>)>, name: Seq<char>)
    requires
        distinct_names(resources),
    ensures
        forall|i: int| 0 <= i < resources.len() && resources[i].0 == name ==> find_resource(resources, name)
            == Some(resources[i].1),
        (forall|i: int| 0 <= i < resources.len() ==> resources[i].0 != name) ==> find_resource(
            resources,
            name,
        ) is None,
    decreases resources.len(),
{
    if resources.len() > 0 {
        let rest = resources.drop_last();
        assert(distinct_names(rest)) by {
            assert forall|i: int, j: int|
                0 <= i < rest.len() && 0 <= j < rest.len() && i != j implies #[trigger] rest[i].0
                != #[trigger] rest[j].0 by {
                assert(rest[i] == resources[i] && rest[j] == resources[j]);
            }
        }
        lemma_find_distinct(rest, name);
        assert forall|i: int| 0 <= i < resources.len() && resources[i].0 == name implies find_resource(
            resources,
            name,
        ) == Some(resources[i].1) by {
            if i < resources.len() - 1 {
                assert(rest[i] == resources[i]);
                assert(resources[resources.len() - 1].0 != resources[i].0);
            }
        }
        if forall|i: int| 0 <= i < resources.len() ==> resources[i].0 != name {
            assert forall|i: int| 0 <= i < rest.len() implies rest[i].0 != name by {
                assert(rest[i] == resources[i]);
            }
            assert(resources[resources.len() - 1].0 != name);
        }
    }
}

/// The names and data of a list of resources as a package stores them.
pub open spec fn stored_entries(resources: Seq<(Seq<char>, Seq<u8>)>) -> Seq<(Seq<u8>, Seq<u8>)> {
    resources.map_values(|p: (Seq<char>, Seq<u8>)| (encode_utf8(p.0), p.1))
}

/// A package of named resources, appended to any bytes, reads back as the
/// same names with the same data: `from_package` then finds every name
/// valid and the index equal to the resources.
pub proof fn lemma_resources_round_trip(prefix: Seq<u8>, resources: Seq<(Seq<char>, Seq<u8>)>)
    requires
        encodable(stored_entries(resources)),
    ensures
        parsed_entries(prefix + package_bytes(stored_entries(resources))) == Some(stored_entries(resources)),
        names_valid(stored_entries(resources)),
        decode_names(stored_entries(resources)) == resources,
{
    broadcast use vstd::utf8::encode_utf8_valid_utf8, vstd::utf8::encode_utf8_decode_utf8;
    let e = stored_entries(resources);
    crate::package::lemma_package_round_trip(prefix, e);
    assert forall|i: int| 0 <= i < e.len() implies valid_utf8(#[trigger] e[i].0) by {
        assert(e[i].0 == encode_utf8(resources[i].0));
    }
    assert(decode_names(e) =~= resources) by {
        assert forall|i: int| 0 <= i < resources.len() implies #[trigger] decode_names(e)[i] == resources[i] by {
            assert(e[i] == (encode_utf8(resources[i].0), resources[i].1));
        }
    }
}

} // verus!
