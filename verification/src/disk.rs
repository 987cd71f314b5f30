//! What lies on a disk, as far as the laws about files speak of it.
use vstd::prelude::*;
use crate::path::components;

verus! {

/// What lies at a place. A link counts as a file, wherever it leads.
pub enum Entry {
    Dir,
    File(Seq<u8>),
}

/// What lies where; a place is the components of a path.
pub type Disk = Map<Seq<Seq<u8>>, Entry>;

/// What lies at a path.
pub open spec fn at(disk: Disk, path: Seq<u8>) -> Option<Entry> {
    disk.get(components(path))
}

/// Whether everything on a disk lies in directories that are there too.
pub open spec fn is_tree(disk: Disk) -> bool {
    forall|dir: Seq<Seq<u8>>, place: Seq<Seq<u8>>|
        #![trigger dir.is_prefix_of(place)]
        disk.contains_key(place) && dir.is_prefix_of(place) && dir.len() > 0 ==> disk.contains_key(
            dir,
        )
}

/// Whether all that lay on a disk still lies there unchanged.
pub open spec fn keeps(before: Disk, after: Disk) -> bool {
    forall|place: Seq<Seq<u8>>| #[trigger]
        before.contains_key(place) ==> after.get(place) == before.get(place)
}

/// Whether a place is a path or lies below it.
pub open spec fn at_or_below(path: Seq<u8>, place: Seq<Seq<u8>>) -> bool {
    components(path).is_prefix_of(place)
}

} // verus!
