//! Stores of file contents, by inode.
use std::collections::HashMap;
use vstd::prelude::*;

verus! {

broadcast use vstd::std_specs::hash::group_hash_axioms;

/// A store of file contents, by inode.
pub trait DataFetcher: Sized {
    /// An empty store.
    fn new() -> Self;

    /// Whether a read of `inode` may start at `offset`.
    spec fn readable(&self, inode: u64, offset: usize) -> bool;

    /// Up to `size` bytes of the contents of `inode` from `offset` on.
    fn read(&mut self, inode: u64, offset: usize, size: usize) -> Option<&[u8]>
        requires
            offset + size <= usize::MAX,
            old(self).readable(inode, offset),
    ;

    /// Writes `data` at `offset` into the contents of `inode`.
    fn write(&mut self, inode: u64, offset: usize, data: &[u8])
        requires
            offset + data@.len() <= usize::MAX,
    ;

    /// Forgets the contents of `inode`.
    fn remove(&mut self, inode: u64);
}

/// A fetcher that reads nothing and keeps nothing.
pub struct GoogleDriveFetcher {}

impl DataFetcher for GoogleDriveFetcher {
    /// Every read may start anywhere.
    open spec fn readable(&self, inode: u64, offset: usize) -> bool {
        true
    }

    fn new() -> (r: GoogleDriveFetcher) {
        GoogleDriveFetcher {}
    }

    fn read(&mut self, inode: u64, offset: usize, size: usize) -> (r: Option<&[u8]>)
        ensures
            r is None,
    {
        None
    }

    fn write(&mut self, inode: u64, offset: usize, data: &[u8]) {
    }

    fn remove(&mut self, inode: u64) {
    }
}

/// A store of file contents kept in memory.
pub struct InMemoryFetcher {
    data: HashMap<u64, Vec<u8>>,
}

/// The contents after `d` was written at `offset` into `old`: what stood
/// before `offset` stays (with zeros filling any gap), `d` follows, and
/// nothing after it remains.
pub open spec fn written(old: Seq<u8>, offset: int, d: Seq<u8>) -> Seq<u8> {
    Seq::new((offset + d.len()) as nat, |i: int| if i < offset {
        if i < old.len() { old[i] } else { 0u8 }
    } else {
        d[i - offset]
    })
}

/// The bytes that a read of `size` bytes at `offset` gives from `contents`.
pub open spec fn read_range(contents: Seq<u8>, offset: int, size: int) -> Seq<u8> {
    let end = if contents.len() < offset + size { contents.len() as int } else { offset + size };
    contents.subrange(offset, end)
}

impl View for InMemoryFetcher {
    type V = Map<u64, Seq<u8>>;

    closed spec fn view(&self) -> Map<u64, Seq<u8>> {
        self.data@.map_values(|v: Vec<u8>| v@)
    }
}

impl DataFetcher for InMemoryFetcher {
    /// A read of stored contents may start anywhere up to their end.
    open spec fn readable(&self, inode: u64, offset: usize) -> bool {
        self@.contains_key(inode) ==> offset <= self@[inode].len()
    }

    fn new() -> (r: InMemoryFetcher)
        ensures
            r@ == Map::<u64, Seq<u8>>::empty(),
    {
        let r = InMemoryFetcher { data: HashMap::new() };
        assert(r@ =~= Map::<u64, Seq<u8>>::empty());
        r
    }

    fn read(&mut self, inode: u64, offset: usize, size: usize) -> (r: Option<&[u8]>)
        ensures
            final(self)@ == old(self)@,
            !old(self)@.contains_key(inode) ==> r is None,
            old(self)@.contains_key(inode) ==>
                r is Some && r->Some_0@ == read_range(old(self)@[inode], offset as int, size as int),
    {
        match self.data.get(&inode) {
            Some(d) => {
                let end = if d.len() < offset + size { d.len() } else { offset + size };
                let s = d.as_slice();
                Some(&s[offset..end])
            }
            None => None,
        }
    }

    fn write(&mut self, inode: u64, offset: usize, data: &[u8])
        ensures
            final(self)@ == old(self)@.insert(inode, written(
                if old(self)@.contains_key(inode) { old(self)@[inode] } else { Seq::empty() },
                offset as int,
                data@,
            )),
    {
        let mut file_data: Vec<u8> = match self.data.remove(&inode) {
            Some(d) => d,
            None => Vec::new(),
        };
        let ghost old_data = file_data@;
        assert(old_data == if old(self)@.contains_key(inode) { old(self)@[inode] } else { Seq::<u8>::empty() });
        let new_size = offset + data.len();
        file_data.resize(new_size, 0u8);
        let mut j: usize = 0;
        while j < data.len()
            invariant
                new_size == offset + data@.len(),
                file_data@.len() == new_size,
                j <= data@.len(),
                forall|i: int| 0 <= i < offset ==> #[trigger] file_data@[i] == (if i < old_data.len() { old_data[i] } else { 0u8 }),
                forall|i: int| offset <= i < offset + j ==> #[trigger] file_data@[i] == data@[i - offset],
            decreases data@.len() - j,
        {
            file_data.set(offset + j, data[j]);
            j = j + 1;
        }
        assert(file_data@ =~= written(old_data, offset as int, data@));
        self.data.insert(inode, file_data);
        assert(self@ =~= old(self)@.insert(inode, written(old_data, offset as int, data@)));
    }

    fn remove(&mut self, inode: u64)
        ensures
            final(self)@ == old(self)@.remove(inode),
    {
        self.data.remove(&inode);
        assert(self@ =~= old(self)@.remove(inode));
    }
}

} // verus!
