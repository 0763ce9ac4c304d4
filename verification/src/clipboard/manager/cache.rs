//! Clipboard data that was delivered once and may be asked for again.
use vstd::prelude::*;
use crate::text_map::TextMap;

verus! {

/// Delivered data by MIME type.
pub struct TransferCache {
    entries: TextMap<Vec<u8>>,
}

impl View for TransferCache {
    type V = Map<Seq<char>, Seq<u8>>;

    closed spec fn view(&self) -> Map<Seq<char>, Seq<u8>> {
        self.entries@.map_values(|data: Vec<u8>| data@)
    }
}

impl TransferCache {
    pub closed spec fn well_formed(&self) -> bool {
        self.entries.well_formed()
    }

    /// An empty cache.
    pub fn new() -> (cache: Self)
        ensures
            cache.well_formed(),
            cache@ == Map::<Seq<char>, Seq<u8>>::empty(),
    {
        let cache = TransferCache { entries: TextMap::new() };
        assert(cache@ =~= Map::empty());
        cache
    }

    /// The data for a type, where there is some.
    pub fn get(&self, mime: &str) -> (data: Option<&Vec<u8>>)
        requires
            self.well_formed(),
        ensures
            match data {
                Some(bytes) => self@.contains_key(mime@) && self@[mime@] == bytes@,
                None => !self@.contains_key(mime@),
            },
    {
        self.entries.get(mime)
    }

    /// Keeps the data for a type, in place of what was there.
    pub fn insert(&mut self, mime: String, data: Vec<u8>)
        requires
            old(self).well_formed(),
        ensures
            final(self).well_formed(),
            final(self)@ == old(self)@.insert(mime@, data@),
    {
        let ghost key = mime@;
        let ghost bytes = data@;
        let ghost before = self@;
        self.entries.insert(mime, data);
        assert(self@ =~= before.insert(key, bytes));
    }
}

} // verus!
