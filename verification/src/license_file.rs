//! The manually curated license table: entries that either name a short
//! license identifier or carry full license text for one dependency.

use vstd::prelude::*;

verus! {

/// One entry of the curated license table, keyed by dependency name.
///
/// A well-formed entry carries exactly one of a short license identifier
/// and full license text; an entry with both or neither is a fatal
/// configuration error, surfaced during resolution.
pub struct Package {
    pub name: String,
    pub license_file_content: Option<String>,
    pub license: Option<String>,
}

impl Package {
    /// Exactly one of the identifier and the full-text content is present.
    pub open spec fn wf(self) -> bool {
        self.license is Some <==> self.license_file_content is None
    }
}

/// The source a curated-table entry names for its license: a reference
/// to fetch full text from, or a short identifier given inline.
pub enum EntrySource {
    Fetch(String),
    Identifier(String),
}

/// The decision over one parsed configuration entry: exactly one of the
/// full-text reference and the identifier must be given; both or
/// neither is a fatal configuration error naming the entry.
pub open spec fn entry_source_spec(
    name: String,
    url: Option<String>,
    license: Option<String>,
) -> Result<EntrySource, crate::resolve::NoticeError> {
    match (url, license) {
        (Some(u), None) => Ok(EntrySource::Fetch(u)),
        (None, Some(l)) => Ok(EntrySource::Identifier(l)),
        _ => Err(crate::resolve::NoticeError::MalformedOverride(name)),
    }
}

/// Classifies one parsed configuration entry; the caller fetches where
/// a reference is named and builds the entry from what came back.
pub fn entry_source(name: &String, url: &Option<String>, license: &Option<String>) -> (r: Result<
    EntrySource,
    crate::resolve::NoticeError,
>)
    ensures
        r == entry_source_spec(*name, *url, *license),
{
    match (url, license) {
        (Some(u), None) => Ok(EntrySource::Fetch(u.clone())),
        (None, Some(l)) => Ok(EntrySource::Identifier(l.clone())),
        _ => Err(crate::resolve::NoticeError::MalformedOverride(name.clone())),
    }
}

/// The first entry of `table` whose name is `name`, if any.
pub open spec fn lookup_spec(table: Seq<Package>, name: Seq<char>) -> Option<Package>
    decreases table.len(),
{
    if table.len() == 0 {
        None
    } else if table[0].name@ == name {
        Some(table[0])
    } else {
        lookup_spec(table.skip(1), name)
    }
}

/// Finds the first entry of `table` named `name`, returning its index.
pub fn lookup(table: &Vec<Package>, name: &String) -> (r: Option<usize>)
    ensures
        match r {
            Some(i) => i < table@.len() && lookup_spec(table@, name@) == Some(table@[i as int]),
            None => lookup_spec(table@, name@) is None,
        },
{
    let n = table.len();
    let mut i: usize = 0;
    proof {
        assert(table@.skip(0) =~= table@);
    }
    while i < n
        invariant
            n == table@.len(),
            i <= n,
            lookup_spec(table@, name@) == lookup_spec(table@.skip(i as int), name@),
        decreases n - i,
    {
        proof {
            assert(table@.skip(i as int)[0] == table@[i as int]);
            assert(table@.skip(i as int).skip(1) =~= table@.skip(i + 1));
        }
        if table[i].name == *name {
            return Some(i);
        }
        i = i + 1;
    }
    proof {
        assert(table@.skip(n as int) =~= Seq::<Package>::empty());
    }
    None
}

} // verus!
