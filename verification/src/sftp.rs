//! Remote files: the browser's state and the transfer queue.

use crate::ids;
use uuid::Uuid;
use vstd::prelude::*;

verus! {

/// Metadata for a remote file entry.
#[derive(Debug, Clone)]
pub struct RemoteEntry {
    pub name: String,
    pub path: String,
    pub is_dir: bool,
    pub is_symlink: bool,
    pub size: u64,
    pub permissions: u32,
    pub modified: u64,
    /// File type label (dir, file, link, etc.)
    pub file_type: String,
    /// Owner user name (or UID string).
    pub owner: String,
    /// Group name (or GID string).
    pub group: String,
}

/// Transfer direction.
#[derive(Debug, Clone, Copy, PartialEq, Eq, Structural)]
pub enum TransferDirection {
    Upload,
    Download,
}

/// State of a file transfer.
#[derive(Debug)]
pub enum TransferState {
    Queued,
    InProgress { bytes_transferred: u64, total_bytes: u64 },
    Paused { bytes_transferred: u64, total_bytes: u64 },
    Completed,
    Failed(String),
}

impl Clone for TransferState {
    fn clone(&self) -> (r: TransferState)
        ensures
            r == *self,
    {
        match self {
            TransferState::Queued => TransferState::Queued,
            TransferState::InProgress { bytes_transferred, total_bytes } =>
                TransferState::InProgress {
                    bytes_transferred: *bytes_transferred,
                    total_bytes: *total_bytes,
                },
            TransferState::Paused { bytes_transferred, total_bytes } => TransferState::Paused {
                bytes_transferred: *bytes_transferred,
                total_bytes: *total_bytes,
            },
            TransferState::Completed => TransferState::Completed,
            TransferState::Failed(e) => TransferState::Failed(e.clone()),
        }
    }
}

/// A tracked file transfer.
#[derive(Debug)]
pub struct TransferJob {
    pub id: Uuid,
    pub direction: TransferDirection,
    pub local_path: String,
    pub remote_path: String,
    pub state: TransferState,
}

impl Clone for TransferJob {
    fn clone(&self) -> (r: TransferJob)
        ensures
            r == *self,
    {
        TransferJob {
            id: self.id,
            direction: self.direction,
            local_path: self.local_path.clone(),
            remote_path: self.remote_path.clone(),
            state: self.state.clone(),
        }
    }
}

/// Event emitted during a transfer for progress tracking.
#[derive(Debug)]
pub enum TransferEvent {
    Progress { job_id: Uuid, bytes_transferred: u64, total_bytes: u64 },
    Completed { job_id: Uuid },
    Failed { job_id: Uuid, error: String },
}

impl Clone for TransferEvent {
    fn clone(&self) -> (r: TransferEvent)
        ensures
            r == *self,
    {
        match self {
            TransferEvent::Progress { job_id, bytes_transferred, total_bytes } =>
                TransferEvent::Progress {
                    job_id: *job_id,
                    bytes_transferred: *bytes_transferred,
                    total_bytes: *total_bytes,
                },
            TransferEvent::Completed { job_id } => TransferEvent::Completed { job_id: *job_id },
            TransferEvent::Failed { job_id, error } => TransferEvent::Failed {
                job_id: *job_id,
                error: error.clone(),
            },
        }
    }
}

/// Manages a queue of file transfers.
#[derive(Debug)]
pub struct TransferManager {
    pub queue: Vec<TransferJob>,
    pub max_concurrent: usize,
}

impl TransferManager {
    pub fn new(max_concurrent: usize) -> (r: TransferManager)
        ensures
            r.queue@ == Seq::<TransferJob>::empty(),
            r.max_concurrent == max_concurrent,
    {
        TransferManager { queue: Vec::new(), max_concurrent }
    }

    /// Enqueue a new transfer job under a fresh ID.
    pub fn enqueue(
        &mut self,
        direction: TransferDirection,
        local_path: String,
        remote_path: String,
    ) -> (id: Uuid)
        ensures
            final(self).queue@ == old(self).queue@.push(
                TransferJob { id, direction, local_path, remote_path, state: TransferState::Queued },
            ),
            final(self).max_concurrent == old(self).max_concurrent,
    {
        let id: Uuid = ids::fresh_id();
        self.enqueue_as(id, direction, local_path, remote_path);
        id
    }

    /// Enqueue a new transfer job under the given ID.
    pub fn enqueue_as(
        &mut self,
        id: Uuid,
        direction: TransferDirection,
        local_path: String,
        remote_path: String,
    )
        ensures
            final(self).queue@ == old(self).queue@.push(
                TransferJob { id, direction, local_path, remote_path, state: TransferState::Queued },
            ),
            final(self).max_concurrent == old(self).max_concurrent,
    {
        self.queue.push(
            TransferJob { id, direction, local_path, remote_path, state: TransferState::Queued },
        );
    }
}

/// Remote file browser state for a single SSH session.
#[derive(Debug)]
pub struct RemoteBrowser {
    pub current_path: String,
    pub entries: Vec<RemoteEntry>,
}

/// An absolute path whose parts stand between single slashes, with none at its end but the root's:
/// no part is empty or a single dot, and no backslash occurs, which some platforms take for a
/// slash.
pub open spec fn simple_path(path: Seq<char>) -> bool {
    &&& path.len() > 0
    &&& path[0] == '/'
    &&& path.len() > 1 ==> path.last() != '/'
    &&& forall|i: int| 0 <= i < path.len() ==> #[trigger] path[i] != '\\'
    &&& forall|i: int|
        0 < i < path.len() && #[trigger] path[i] == '/' ==> path[i - 1] != '/'
    &&& forall|i: int|
        0 < i < path.len() && #[trigger] path[i] == '.' && path[i - 1] == '/' ==> i + 1 < path.len()
            && path[i + 1] != '/'
}

/// Where the last slash of a path is.
pub open spec fn last_slash(path: Seq<char>) -> int
    decreases path.len(),
{
    if path.len() == 0 || path.last() == '/' {
        path.len() - 1
    } else {
        last_slash(path.drop_last())
    }
}

/// The path of the directory that holds the last part of a path: what stands before the last
/// slash, or the root.
pub open spec fn parent_path(path: Seq<char>) -> Seq<char> {
    if last_slash(path) <= 0 {
        seq!['/']
    } else {
        path.take(last_slash(path))
    }
}

/// `std::path::Path::parent` with `to_string_lossy`. The root has no parent; another simple path
/// loses its last part. Of other paths, whose parts depend on the platform or are normalised,
/// nothing is promised.
#[verifier::external_body]
fn parent_of(path: &str) -> (r: Option<String>)
    ensures
        simple_path(path@) ==> match r {
            Some(p) => path@.len() > 1 && p@ == parent_path(path@),
            None => path@.len() == 1,
        },
{
    std::path::Path::new(path).parent().map(|p| p.to_string_lossy().to_string())
}

proof fn lemma_last_slash(path: Seq<char>)
    requires
        path.len() > 0,
        path[0] == '/',
    ensures
        0 <= last_slash(path) < path.len(),
        path[last_slash(path)] == '/',
    decreases path.len(),
{
    if path.last() != '/' {
        lemma_last_slash(path.drop_last());
    }
}

/// The parent of a simple path is a simple path, shorter but at the root: going up again and
/// again ends there.
pub proof fn law_parent_is_simple(path: Seq<char>)
    requires
        simple_path(path),
    ensures
        simple_path(parent_path(path)),
        path.len() > 1 ==> parent_path(path).len() < path.len(),
{
    lemma_last_slash(path);
    let k = last_slash(path);
    if k > 0 {
        let p = parent_path(path);
        assert(path[k] == '/');
        assert(p.last() == path[k - 1]);
        assert forall|i: int| 0 <= i < p.len() implies #[trigger] p[i] != '\\' by {
            assert(p[i] == path[i]);
        }
        assert forall|i: int| 0 < i < p.len() && #[trigger] p[i] == '.' && p[i - 1] == '/' implies i
            + 1 < p.len() && p[i + 1] != '/' by {
            assert(p[i] == path[i]);
            assert(path[i + 1] != '/');
        }
        assert forall|i: int| 0 < i < p.len() && #[trigger] p[i] == '/' implies p[i - 1] != '/' by {
            assert(p[i] == path[i]);
        }
    }
}

impl RemoteBrowser {
    pub fn new() -> (r: RemoteBrowser)
        ensures
            r.current_path@ == "/"@,
            r.entries@ == Seq::<RemoteEntry>::empty(),
    {
        RemoteBrowser { current_path: "/".to_owned(), entries: Vec::new() }
    }

    /// Navigate to a directory; its entries are to be filled in.
    pub fn navigate(&mut self, path: &str)
        ensures
            final(self).current_path@ == path@,
            final(self).entries@ == Seq::<RemoteEntry>::empty(),
    {
        self.current_path = path.to_owned();
        self.entries.clear();
    }

    /// Navigate to the parent, where there is one; at the root nothing changes.
    pub fn go_to(&mut self, parent: Option<String>)
        ensures
            match parent {
                Some(p) => final(self).current_path@ == p@ && final(self).entries@ == Seq::<
                    RemoteEntry,
                >::empty(),
                None => *final(self) == *old(self),
            },
    {
        if let Some(p) = parent {
            self.navigate(p.as_str());
        }
    }

    /// Navigate up one level. Either the browser moves, and then it shows no entries yet, or
    /// nothing changes, as at the root. What the parent of a path is that is not simple depends
    /// on the platform.
    pub fn go_up(&mut self)
        ensures
            *final(self) == *old(self) || final(self).entries@ == Seq::<RemoteEntry>::empty(),
            simple_path(old(self).current_path@) ==> if old(self).current_path@.len() == 1 {
                *final(self) == *old(self)
            } else {
                &&& final(self).current_path@ == parent_path(old(self).current_path@)
                &&& final(self).entries@ == Seq::<RemoteEntry>::empty()
            },
    {
        let parent: Option<String> = parent_of(self.current_path.as_str());
        self.go_to(parent);
    }
}

proof fn lemma_no_later_slash(path: Seq<char>, i: int)
    requires
        0 <= i < path.len(),
        last_slash(path) < i,
    ensures
        path[i] != '/',
    decreases path.len(),
{
    if i < path.len() - 1 {
        assert(path.drop_last()[i] == path[i]);
        lemma_no_later_slash(path.drop_last(), i);
    }
}

/// A simple path but the root is its parent's path, a slash where that is not the root, and a name
/// that is not empty and holds no slash.
pub proof fn law_parent_and_name(path: Seq<char>)
    requires
        simple_path(path),
        path.len() > 1,
    ensures
        ({
            let p = parent_path(path);
            let from = if p == seq!['/'] {
                1
            } else {
                p.len() + 1
            };
            &&& from < path.len()
            &&& path[from - 1] == '/'
            &&& path.take(p.len() as int) == p
            &&& forall|i: int| from <= i < path.len() ==> #[trigger] path[i] != '/'
        }),
{
    lemma_last_slash(path);
    let k = last_slash(path);
    let p = parent_path(path);
    if k > 0 {
        assert(p.len() == k);
        assert(path[k] == '/');
        assert(k != 1);
        assert(seq!['/'].len() == 1);
        assert(path.take(p.len() as int) =~= p);
    } else {
        assert(path.take(1) =~= seq!['/']);
    }
    assert forall|i: int| k < i < path.len() implies #[trigger] path[i] != '/' by {
        lemma_no_later_slash(path, i);
    }
}

} // verus!
