use vstd::prelude::*;
use crate::paths::{ScanPath, is_prefix_of};

verus! {

/// The kind of medium a path lives on.
#[derive(Debug, Clone, Copy, PartialEq, Eq, Structural)]
pub enum StorageType {
    SSD,
    HDD,
    /// A kind the operating system reported under a code of its own.
    Unknown(isize),
    /// The path lies under no known mount.
    Failed,
}

/// One mounted volume: its (canonical) mount point and the medium it reports.
#[derive(Debug)]
pub struct MountInfo {
    pub mount_point: ScanPath,
    pub kind: StorageType,
}

/// Mount `i` of `mounts` prefixes `target`.
pub open spec fn mount_covers(target: Seq<Seq<u8>>, mounts: Seq<MountInfo>, i: int) -> bool {
    0 <= i < mounts.len() && is_prefix_of(mounts[i].mount_point@, target)
}

/// Mount `i` is the one that decides `target`'s medium: it covers `target`, no
/// covering mount is deeper, and none after it is as deep.
pub open spec fn is_deciding_mount(target: Seq<Seq<u8>>, mounts: Seq<MountInfo>, i: int) -> bool {
    &&& mount_covers(target, mounts, i)
    &&& forall|j: int| #[trigger] mount_covers(target, mounts, j)
        ==> mounts[j].mount_point@.len() <= mounts[i].mount_point@.len()
    &&& forall|j: int| i < j && #[trigger] mount_covers(target, mounts, j)
        ==> mounts[j].mount_point@.len() < mounts[i].mount_point@.len()
}

/// The medium of `target`: that of the deciding mount, or `Failed` when no mount
/// covers it.
pub open spec fn classified(target: Seq<Seq<u8>>, mounts: Seq<MountInfo>) -> StorageType {
    if exists|i: int| is_deciding_mount(target, mounts, i) {
        mounts[choose|i: int| is_deciding_mount(target, mounts, i)].kind
    } else {
        StorageType::Failed
    }
}

/// Classifies `target` by the most specific of `mounts` that is a prefix of it.
/// Among equally deep mounts the last one listed wins.
pub fn classify(target: &ScanPath, mounts: &Vec<MountInfo>) -> (r: StorageType)
    ensures
        (forall|i: int| !mount_covers(target@, mounts@, i)) ==> r == StorageType::Failed,
        (exists|i: int| mount_covers(target@, mounts@, i)) ==> exists|i: int|
            is_deciding_mount(target@, mounts@, i) && r == mounts@[i].kind,
        r == classified(target@, mounts@),
{
    let mut best: Option<usize> = None;
    let mut best_depth: usize = 0;
    let mut k: usize = 0;
    while k < mounts.len()
        invariant
            k <= mounts@.len(),
            match best {
                None => forall|j: int| 0 <= j < k ==> !mount_covers(target@, mounts@, j),
                Some(b) => {
                    &&& b < k
                    &&& mount_covers(target@, mounts@, b as int)
                    &&& best_depth == mounts@[b as int].mount_point@.len()
                    &&& forall|j: int| 0 <= j < k && mount_covers(target@, mounts@, j)
                        ==> mounts@[j].mount_point@.len() <= best_depth
                    &&& forall|j: int| b < j < k && mount_covers(target@, mounts@, j)
                        ==> mounts@[j].mount_point@.len() < best_depth
                },
            },
        decreases mounts@.len() - k,
    {
        let m = &mounts[k];
        if target.starts_with(&m.mount_point) {
            let d = m.mount_point.depth();
            let better = match best {
                None => true,
                Some(_) => d >= best_depth,
            };
            if better {
                best = Some(k);
                best_depth = d;
            }
        }
        k = k + 1;
    }
    match best {
        None => {
            assert forall|i: int| !mount_covers(target@, mounts@, i) by {
                if 0 <= i < mounts@.len() {
                }
            }
            proof {
                if exists|i: int| is_deciding_mount(target@, mounts@, i) {
                    let i = choose|i: int| is_deciding_mount(target@, mounts@, i);
                    assert(mount_covers(target@, mounts@, i));
                }
            }
            StorageType::Failed
        },
        Some(b) => {
            assert(is_deciding_mount(target@, mounts@, b as int));
            proof {
                let c = choose|i: int| is_deciding_mount(target@, mounts@, i);
                lemma_deciding_mount_unique(target@, mounts@, c, b as int);
            }
            mounts[b].kind
        },
    }
}

proof fn lemma_deciding_mount_unique(target: Seq<Seq<u8>>, mounts: Seq<MountInfo>, i: int, j: int)
    requires
        is_deciding_mount(target, mounts, i),
        is_deciding_mount(target, mounts, j),
    ensures
        i == j,
{
    assert(mount_covers(target, mounts, i));
    assert(mount_covers(target, mounts, j));
}

/// How many I/O operations a scan of a medium of this kind may have in flight.
pub fn permits_for(storage: StorageType) -> (r: usize)
    ensures
        r == (if storage == StorageType::SSD { 16usize } else { 1usize }),
{
    match storage {
        StorageType::SSD => 16,
        StorageType::HDD | StorageType::Unknown(_) => 1,
        StorageType::Failed => 1,
    }
}

} // verus!

verus! {

/// When one covering mount is strictly deeper than every other covering mount,
/// its medium is the path's medium.
pub proof fn lemma_deepest_mount_wins(target: Seq<Seq<u8>>, mounts: Seq<MountInfo>, i: int)
    requires
        mount_covers(target, mounts, i),
        forall|j: int| j != i && #[trigger] mount_covers(target, mounts, j)
            ==> mounts[j].mount_point@.len() < mounts[i].mount_point@.len(),
    ensures
        classified(target, mounts) == mounts[i].kind,
{
    assert(is_deciding_mount(target, mounts, i));
    let c = choose|k: int| is_deciding_mount(target, mounts, k);
    lemma_deciding_mount_unique(target, mounts, c, i);
}

/// A path that no mount covers is classified as `Failed`.
pub proof fn lemma_uncovered_path_fails(target: Seq<Seq<u8>>, mounts: Seq<MountInfo>)
    requires
        forall|j: int| !mount_covers(target, mounts, j),
    ensures
        classified(target, mounts) == StorageType::Failed,
{
    if exists|i: int| is_deciding_mount(target, mounts, i) {
        let i = choose|i: int| is_deciding_mount(target, mounts, i);
        assert(mount_covers(target, mounts, i));
    }
}

} // verus!
