use vstd::prelude::*;

use crate::bytes::bytes_eq;

verus! {

/// Coarse classification of a storage volume. An unclassified volume
/// carries a reason code: -1 for a device found but ambiguous (a RAID
/// member), -2 for a name the index does not hold at all.
#[derive(Clone, Copy, PartialEq, Eq, Structural, Debug)]
pub enum DiskType {
    HDD,
    SSD,
    Unknown(i32),
}

/// The classification rule for one entry of the device registry: only a
/// whole device is indexed; a RAID member is ambiguous, anything else
/// counts as solid-state.
pub fn classify_media(whole: bool, raid: bool) -> (r: Option<DiskType>)
    ensures
        r == (if !whole {
            None::<DiskType>
        } else if raid {
            Some(DiskType::Unknown(-1i32))
        } else {
            Some(DiskType::SSD)
        }),
{
    if !whole {
        None
    } else if raid {
        Some(DiskType::Unknown(-1i32))
    } else {
        Some(DiskType::SSD)
    }
}

/// The lazily-built index from volume name to disk type. It is computed
/// from one walk of the device registry, installed once, and read from
/// then on; a failed walk installs an empty index and is never retried.
pub struct DiskTypeCache {
    entries: Option<Vec<(Vec<u8>, DiskType)>>,
    enumerations: u64,
}

impl DiskTypeCache {
    /// The installed index as a mathematical sequence of pairs; empty
    /// while nothing is installed.
    pub closed spec fn table(&self) -> Seq<(Seq<u8>, DiskType)> {
        match self.entries {
            Some(v) => Seq::new(v@.len(), |i: int| (v@[i].0@, v@[i].1)),
            None => Seq::empty(),
        }
    }

    pub closed spec fn initialized(&self) -> bool {
        self.entries is Some
    }

    /// How often the external device enumeration has been run for this
    /// cache.
    pub closed spec fn enum_count(&self) -> int {
        self.enumerations as int
    }

    pub closed spec fn wf(&self) -> bool {
        &&& self.enumerations <= 1
        &&& (self.initialized() <==> self.enumerations == 1)
    }

    pub fn new() -> (r: DiskTypeCache)
        ensures
            r.wf(),
            !r.initialized(),
            r.enum_count() == 0,
    {
        DiskTypeCache { entries: None, enumerations: 0 }
    }

    /// Whether a caller must run the external enumeration before the cache
    /// can classify: true exactly once, before the first `install`.
    pub fn needs_enumeration(&self) -> (r: bool)
        ensures
            r == !self.initialized(),
    {
        self.entries.is_none()
    }

    /// Publishes the result of the one external enumeration. A cache that
    /// is already initialized admits no second installation, so the
    /// enumeration cannot be run twice on a well-formed cache.
    pub fn install(&mut self, entries: Vec<(Vec<u8>, DiskType)>)
        requires
            old(self).wf(),
            !old(self).initialized(),
        ensures
            final(self).wf(),
            final(self).initialized(),
            final(self).enum_count() == old(self).enum_count() + 1,
            final(self).table() == Seq::new(
                entries@.len(),
                |i: int| (entries@[i].0@, entries@[i].1),
            ),
    {
        self.entries = Some(entries);
        self.enumerations = self.enumerations + 1;
    }

    /// Looks a volume name up in the installed index: the first entry with
    /// that name decides, and a name the index does not hold is "not
    /// indexed".
    pub fn classify(&self, name: &Vec<u8>) -> (r: DiskType)
        requires
            self.initialized(),
        ensures
            r == spec_classify(self.table(), name@),
    {
        let entries = match &self.entries {
            Some(v) => v,
            None => {
                return DiskType::Unknown(-2i32);
            },
        };
        let ghost t = self.table();
        proof {
            assert(t.subrange(0, t.len() as int) =~~= t);
        }
        let mut k: usize = 0;
        while k < entries.len()
            invariant
                k <= entries.len(),
                t == self.table(),
                t.len() == entries@.len(),
                self.entries matches Some(v) && v == entries,
                spec_classify(t, name@) == spec_classify(t.subrange(k as int, t.len() as int), name@),
            decreases entries.len() - k,
        {
            let ghost rest = t.subrange(k as int, t.len() as int);
            proof {
                assert(rest[0] == t[k as int]);
                assert(rest.subrange(1, rest.len() as int) =~~= t.subrange(
                    k + 1 as int,
                    t.len() as int,
                ));
            }
            if bytes_eq(&entries[k].0, name) {
                return entries[k].1;
            }
            k = k + 1;
        }
        DiskType::Unknown(-2i32)
    }
}

/// First matching entry of the index decides; a missing name is
/// `Unknown(-2)`, "not indexed".
pub open spec fn spec_classify(t: Seq<(Seq<u8>, DiskType)>, name: Seq<u8>) -> DiskType
    decreases t.len(),
{
    if t.len() == 0 {
        DiskType::Unknown(-2i32)
    } else if t[0].0 == name {
        t[0].1
    } else {
        spec_classify(t.subrange(1, t.len() as int), name)
    }
}

/// However many classifications are asked of it, a well-formed cache has
/// run the external device enumeration at most once: `install` is the only
/// transition that counts one, and it demands a cache that has not yet
/// enumerated.
pub proof fn lemma_enumeration_at_most_once(c: DiskTypeCache)
    requires
        c.wf(),
    ensures
        c.enum_count() <= 1,
{
}

/// One mounted volume as the surrounding platform code reports it: its
/// display name and its resolved mount path.
pub struct Volume {
    pub name: Vec<u8>,
    pub mount_point: Vec<u8>,
}

pub ghost struct VolumeModel {
    pub name: Seq<u8>,
    pub mount_point: Seq<u8>,
}

impl View for Volume {
    type V = VolumeModel;

    open spec fn view(&self) -> VolumeModel {
        VolumeModel { name: self.name@, mount_point: self.mount_point@ }
    }
}

impl DeepView for Volume {
    type V = VolumeModel;

    open spec fn deep_view(&self) -> VolumeModel {
        self@
    }
}

/// One entry of the disk list.
pub struct Disk {
    pub name: Vec<u8>,
    pub mount_point: Vec<u8>,
    pub type_: DiskType,
}

pub ghost struct DiskModel {
    pub name: Seq<u8>,
    pub mount_point: Seq<u8>,
    pub type_: DiskType,
}

impl View for Disk {
    type V = DiskModel;

    open spec fn view(&self) -> DiskModel {
        DiskModel { name: self.name@, mount_point: self.mount_point@, type_: self.type_ }
    }
}

impl DeepView for Disk {
    type V = DiskModel;

    open spec fn deep_view(&self) -> DiskModel {
        self@
    }
}

/// The disk list drawn from the mounted volumes: each volume with a
/// non-empty mount path, classified through the index; one whose path
/// could not be resolved is skipped.
pub open spec fn spec_disks(t: Seq<(Seq<u8>, DiskType)>, vols: Seq<VolumeModel>) -> Seq<DiskModel>
    decreases vols.len(),
{
    if vols.len() == 0 {
        Seq::empty()
    } else {
        let head: Seq<DiskModel> = if vols[0].mount_point.len() == 0 {
            Seq::empty()
        } else {
            seq![
                DiskModel {
                    name: vols[0].name,
                    mount_point: vols[0].mount_point,
                    type_: spec_classify(t, vols[0].name),
                },
            ]
        };
        head + spec_disks(t, vols.subrange(1, vols.len() as int))
    }
}

/// Builds the disk list for the given volumes from the installed index.
pub fn build_disks(cache: &DiskTypeCache, vols: Vec<Volume>) -> (r: Vec<Disk>)
    requires
        cache.initialized(),
    ensures
        r.deep_view() == spec_disks(cache.table(), vols.deep_view()),
{
    let ghost t = cache.table();
    let ghost vdv = vols.deep_view();
    let mut out: Vec<Disk> = Vec::new();
    let mut vols = vols;
    proof {
        assert(vdv.subrange(0, vdv.len() as int) =~~= vdv);
        assert(out.deep_view() + spec_disks(t, vdv) =~~= spec_disks(t, vdv));
    }
    let mut k: usize = 0;
    while k < vols.len()
        invariant
            k <= vols.len(),
            t == cache.table(),
            cache.initialized(),
            vdv == vols.deep_view(),
            spec_disks(t, vdv) == out.deep_view() + spec_disks(
                t,
                vdv.subrange(k as int, vdv.len() as int),
            ),
        decreases vols.len() - k,
    {
        let ghost out0 = out.deep_view();
        let ghost rest = vdv.subrange(k as int, vdv.len() as int);
        proof {
            assert(rest[0] == vdv[k as int]);
            assert(rest.subrange(1, rest.len() as int) =~~= vdv.subrange(
                k + 1 as int,
                vdv.len() as int,
            ));
        }
        if vols[k].mount_point.len() > 0 {
            let type_ = cache.classify(&vols[k].name);
            let name = crate::bytes::sub_vec(&vols[k].name, 0, vols[k].name.len());
            let mount_point = crate::bytes::sub_vec(&vols[k].mount_point, 0, vols[k].mount_point.len());
            let d = Disk { name, mount_point, type_ };
            proof {
                assert(d@.name =~= vdv[k as int].name);
                assert(d@.mount_point =~= vdv[k as int].mount_point);
            }
            out.push(d);
            proof {
                assert(out.deep_view() =~~= out0 + seq![
                    DiskModel {
                        name: vdv[k as int].name,
                        mount_point: vdv[k as int].mount_point,
                        type_: spec_classify(t, vdv[k as int].name),
                    },
                ]);
            }
        } else {
            proof {
                assert(out.deep_view() + spec_disks(t, rest) =~~= out.deep_view() + spec_disks(
                    t,
                    vdv.subrange(k + 1 as int, vdv.len() as int),
                ));
            }
        }
        k = k + 1;
    }
    proof {
        assert(spec_disks(t, vdv.subrange(vdv.len() as int, vdv.len() as int)) =~~= Seq::<
            DiskModel,
        >::empty());
        assert(out.deep_view() + spec_disks(t, vdv.subrange(vdv.len() as int, vdv.len() as int))
            =~~= out.deep_view());
    }
    out
}

} // verus!
