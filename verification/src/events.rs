use vstd::prelude::*;
use crate::path::CanonPath;
use crate::registry::Registry;
use crate::registry::added;
use crate::registry::prefix_removed;
use crate::time::Timestamp;
use crate::time::Ttl;
use crate::time::expiration_of;
use crate::ttl::path_ttl;

verus! {

/// One filesystem mutation, as the watch mechanism reports it, with every
/// path already canonicalized and the creation time already read for paths
/// that may need tracking (`None` where the metadata was unavailable).
pub enum FsEvent {
    /// A regular file appeared.
    FileCreated { path: CanonPath, created: Option<Timestamp> },
    /// A regular file disappeared.
    FileRemoved { path: CanonPath },
    /// A directory disappeared, together with its whole subtree.
    DirRemoved { path: CanonPath },
    /// A file moved from `old_path` to `new_path`; `created` is the new
    /// path's creation time.
    Renamed { old_path: CanonPath, new_path: CanonPath, created: Option<Timestamp> },
    /// Any other kind of event; ignored.
    Other,
}

impl FsEvent {
    /// Any creation time the event carries is well formed.
    pub open spec fn wf(self) -> bool {
        match self {
            FsEvent::FileCreated { created: Some(t), .. } => t.wf(),
            FsEvent::Renamed { created: Some(t), .. } => t.wf(),
            _ => true,
        }
    }
}

/// The registry map after one event is applied: a created file is observed
/// (tracked where its path encodes a TTL, provided its creation time could
/// be read); a removed file is dropped; a removed directory takes its whole
/// subtree with it; a rename drops the old path and observes the new path
/// afresh, since the new path may encode a different TTL; anything else
/// leaves the registry untouched.
pub open spec fn event_effect(m: Map<Seq<Seq<u8>>, Timestamp>, ev: FsEvent) -> Map<
    Seq<Seq<u8>>,
    Timestamp,
> {
    match ev {
        FsEvent::FileCreated { path, created } => match created {
            Some(t) => added(m, path@, t),
            None => m,
        },
        FsEvent::FileRemoved { path } => m.remove(path@),
        FsEvent::DirRemoved { path } => prefix_removed(m, path@),
        FsEvent::Renamed { old_path, new_path, created } => match created {
            Some(t) => added(m.remove(old_path@), new_path@, t),
            None => m.remove(old_path@),
        },
        FsEvent::Other => m,
    }
}

impl Registry {
    /// Apply one filesystem event to the registry. A failure to read an
    /// event path's metadata only drops that event's effect: the registry
    /// stays consistent and later events are unaffected.
    pub fn handle_event(&mut self, ev: FsEvent)
        requires
            old(self).wf(),
            ev.wf(),
        ensures
            final(self).wf(),
            final(self)@ == event_effect(old(self)@, ev),
    {
        match ev {
            FsEvent::FileCreated { path, created } => {
                match created {
                    Some(t) => {
                        self.add_file(path, &t);
                    },
                    None => {},
                }
            },
            FsEvent::FileRemoved { path } => {
                self.remove(&path);
            },
            FsEvent::DirRemoved { path } => {
                self.remove_prefix(&path);
            },
            FsEvent::Renamed { old_path, new_path, created } => {
                self.remove(&old_path);
                match created {
                    Some(t) => {
                        self.add_file(new_path, &t);
                    },
                    None => {},
                }
            },
            FsEvent::Other => {},
        }
    }
}

/// Rename law: a rename drops the old path and re-extracts the TTL from
/// the new path with freshly read metadata. Where the new path encodes the
/// TTL `t`, the new path is tracked at its creation time plus `t`, and the
/// old path (where it differs from the new one) is no longer tracked.
pub proof fn lemma_rename_effect(
    m: Map<Seq<Seq<u8>>, Timestamp>,
    old_path: Seq<Seq<u8>>,
    new_path: Seq<Seq<u8>>,
    created: Timestamp,
    t: Ttl,
)
    requires
        path_ttl(new_path) == Some(t),
        old_path != new_path,
    ensures
        !added(m.remove(old_path), new_path, created).contains_key(old_path),
        added(m.remove(old_path), new_path, created).contains_key(new_path),
        added(m.remove(old_path), new_path, created)[new_path] == expiration_of(created, t),
{
}

/// Rename law, the untracked half: where the new path encodes no TTL, the
/// rename only drops the old path and inserts nothing.
pub proof fn lemma_rename_no_ttl(
    m: Map<Seq<Seq<u8>>, Timestamp>,
    old_path: Seq<Seq<u8>>,
    new_path: Seq<Seq<u8>>,
    created: Timestamp,
)
    requires
        path_ttl(new_path) is None,
    ensures
        added(m.remove(old_path), new_path, created) == m.remove(old_path),
{
}

} // verus!
