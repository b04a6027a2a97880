//! The node-side lifecycle handlers: publish validates its inputs and
//! prepares a mount request; unpublish validates and tears down. Outcomes
//! of the mount machinery are mapped onto the response contract: a mount
//! failure fails the publish, an unmount failure never fails the
//! unpublish.

use vstd::prelude::*;
use vstd::string::StrSliceExecFns;
use vstd::string::StringExecFns;
use crate::client::{LustreClient, SourceError, source_check};
use crate::command::ExecutionContext;
use crate::mount::{MountManager, MountRequest, MountOutcome, UnmountOutcome};
use crate::strutil::{split_on, split_str_on, str_eq};

verus! {

/// An opaque key/value context handed along with a publish request.
#[derive(Debug, Clone)]
pub struct VolumeContext {
    pub entries: Vec<(String, String)>,
}

/// The value under the first entry with the given key, if any.
pub open spec fn ctx_lookup(entries: Seq<(String, String)>, key: Seq<char>) -> Option<Seq<char>>
    decreases entries.len(),
{
    if entries.len() == 0 {
        None
    } else if entries[0].0@ == key {
        Some(entries[0].1@)
    } else {
        ctx_lookup(entries.subrange(1, entries.len() as int), key)
    }
}

impl VolumeContext {
    pub fn new() -> (r: Self)
        ensures
            r.entries@.len() == 0,
    {
        VolumeContext { entries: Vec::new() }
    }

    /// Add a key/value entry.
    pub fn insert(&mut self, key: String, value: String)
        ensures
            final(self).entries@ == old(self).entries@.push((key, value)),
    {
        self.entries.push((key, value));
    }

    /// Look the key up; the first matching entry wins.
    pub fn get<'a>(&'a self, key: &str) -> (r: Option<&'a String>)
        ensures
            match r {
                Some(v) => ctx_lookup(self.entries@, key@) == Some(v@),
                None => ctx_lookup(self.entries@, key@) is None,
            },
    {
        let n = self.entries.len();
        let mut i: usize = 0;
        proof {
            assert(self.entries@.subrange(0, n as int) =~= self.entries@);
        }
        while i < n
            invariant
                0 <= i <= n,
                n == self.entries@.len(),
                ctx_lookup(self.entries@.subrange(i as int, n as int), key@) == ctx_lookup(
                    self.entries@,
                    key@,
                ),
            decreases n - i,
        {
            let ghost rem = self.entries@.subrange(i as int, n as int);
            if str_eq(self.entries[i].0.as_str(), key) {
                proof {
                    assert(rem[0] == self.entries@[i as int]);
                }
                return Some(&self.entries[i].1);
            }
            proof {
                assert(rem.subrange(1, rem.len() as int) =~= self.entries@.subrange(
                    i + 1,
                    n as int,
                ));
            }
            i += 1;
        }
        proof {
            assert(self.entries@.subrange(n as int, n as int).len() == 0);
        }
        None
    }
}

/// How an error is classified at the protocol boundary.
#[derive(Debug, Clone, Copy, PartialEq, Eq, Structural)]
pub enum ErrorClass {
    InvalidArgument,
    Internal,
}

/// Why a publish or unpublish request was rejected or failed.
#[derive(Debug, Clone, PartialEq, Eq)]
pub enum PublishError {
    EmptyVolumeId,
    EmptyTargetPath,
    MissingSource,
    InvalidSource(SourceError),
    MountFailure(MountOutcome),
}

impl PublishError {
    /// Invalid inputs are the caller's fault; a failed mount is internal.
    pub open spec fn spec_classification(&self) -> ErrorClass {
        match self {
            PublishError::MountFailure(_) => ErrorClass::Internal,
            _ => ErrorClass::InvalidArgument,
        }
    }

    pub fn classification(&self) -> (c: ErrorClass)
        ensures
            c == self.spec_classification(),
    {
        match self {
            PublishError::MountFailure(_) => ErrorClass::Internal,
            _ => ErrorClass::InvalidArgument,
        }
    }
}

/// The mount options used when the caller names none.
pub open spec fn default_mount_options() -> Seq<Seq<char>> {
    seq!["flock"@, "user_xattr"@]
}

/// The options a publish mounts with: the comma-split `mountOptions`
/// context value, or the default pair.
pub open spec fn publish_options(entries: Seq<(String, String)>) -> Seq<Seq<char>> {
    match ctx_lookup(entries, "mountOptions"@) {
        Some(s) => split_on(s, ','),
        None => default_mount_options(),
    }
}

/// One node capability is advertised: staging and unstaging support.
#[derive(Debug, Clone, Copy, PartialEq, Eq, Structural)]
pub enum NodeCapability {
    StageUnstageVolume,
}

/// What the node reports about itself.
#[derive(Debug, Clone)]
pub struct NodeInfo {
    pub node_id: String,
    pub max_volumes_per_node: i64,
}

/// The per-node service: holds the node's identity and the mount
/// machinery.
#[derive(Debug, Clone)]
pub struct NodeService {
    pub node_id: String,
    pub mount_manager: MountManager,
    pub lustre_client: LustreClient,
}

impl NodeService {
    pub fn new(node_id: String) -> (r: Self)
        ensures
            r.node_id == node_id,
            r.mount_manager.ctx == ExecutionContext::HostNamespace,
    {
        NodeService {
            node_id,
            mount_manager: MountManager::new(),
            lustre_client: LustreClient::new(),
        }
    }

    /// Validate a publish request and prepare the mount it asks for.
    /// Rejections are reported before any command would run: an empty
    /// volume id or target path, a context without `source`, or a
    /// malformed source address.
    pub fn prepare_publish(
        &self,
        volume_id: &str,
        target_path: &str,
        context: &VolumeContext,
    ) -> (r: Result<MountRequest, PublishError>)
        ensures
            (r == Err::<MountRequest, PublishError>(PublishError::EmptyVolumeId)) <==> volume_id@.len() == 0,
            (r == Err::<MountRequest, PublishError>(PublishError::EmptyTargetPath)) <==> (
            volume_id@.len() > 0 && target_path@.len() == 0),
            (r == Err::<MountRequest, PublishError>(PublishError::MissingSource)) <==> (
            volume_id@.len() > 0 && target_path@.len() > 0 && ctx_lookup(
                context.entries@,
                "source"@,
            ) is None),
            volume_id@.len() > 0 && target_path@.len() > 0 ==> (ctx_lookup(
                context.entries@,
                "source"@,
            ) matches Some(src) ==> match source_check(src) {
                Some(e) => r == Err::<MountRequest, PublishError>(PublishError::InvalidSource(e)),
                None => (r matches Ok(req) && req.source@ == src && req.target@ == target_path@
                    && req.options.deep_view() == publish_options(context.entries@)),
            }),
    {
        if volume_id.is_empty() {
            return Err(PublishError::EmptyVolumeId);
        }
        if target_path.is_empty() {
            return Err(PublishError::EmptyTargetPath);
        }
        let source: &String = match context.get("source") {
            None => {
                return Err(PublishError::MissingSource);
            },
            Some(s) => s,
        };
        match self.lustre_client.validate_source(source.as_str()) {
            Err(e) => {
                return Err(PublishError::InvalidSource(e));
            },
            Ok(()) => {},
        }
        let options: Vec<String> = match context.get("mountOptions") {
            Some(s) => split_str_on(s.as_str(), ','),
            None => {
                let mut v: Vec<String> = Vec::new();
                v.push(String::from_str("flock"));
                v.push(String::from_str("user_xattr"));
                proof {
                    assert(v.deep_view() =~~= default_mount_options());
                }
                v
            },
        };
        Ok(
            MountRequest {
                source: source.clone(),
                target: String::from_str(target_path),
                options,
            },
        )
    }

    /// Map a finished mount onto the publish response: a mounted target
    /// acknowledges the publish, any failure is surfaced as an internal
    /// error carrying the outcome.
    pub fn publish_response(&self, outcome: MountOutcome) -> (r: Result<(), PublishError>)
        ensures
            r is Ok <==> outcome is Mounted,
            !(outcome is Mounted) ==> r == Err::<(), PublishError>(
                PublishError::MountFailure(outcome),
            ),
    {
        match outcome {
            MountOutcome::Mounted { .. } => Ok(()),
            _ => Err(PublishError::MountFailure(outcome)),
        }
    }

    /// Validate an unpublish request: the volume id and target path must
    /// be non-empty.
    pub fn prepare_unpublish(&self, volume_id: &str, target_path: &str) -> (r: Result<
        (),
        PublishError,
    >)
        ensures
            r == if volume_id@.len() == 0 {
                Err::<(), PublishError>(PublishError::EmptyVolumeId)
            } else if target_path@.len() == 0 {
                Err::<(), PublishError>(PublishError::EmptyTargetPath)
            } else {
                Ok::<(), PublishError>(())
            },
    {
        if volume_id.is_empty() {
            return Err(PublishError::EmptyVolumeId);
        }
        if target_path.is_empty() {
            return Err(PublishError::EmptyTargetPath);
        }
        Ok(())
    }

    /// Map a finished unmount onto the unpublish response: every outcome,
    /// a failed unmount included, acknowledges the unpublish — the target
    /// may legitimately already be gone, so teardown is never blocked.
    pub fn unpublish_response(&self, outcome: UnmountOutcome) -> (r: Result<(), PublishError>)
        ensures
            r is Ok,
    {
        match outcome {
            UnmountOutcome::Unmounted { .. } => Ok(()),
            UnmountOutcome::UnmountFailed { .. } => Ok(()),
        }
    }

    /// The advertised node capabilities: staging and unstaging support.
    pub fn node_get_capabilities(&self) -> (caps: Vec<NodeCapability>)
        ensures
            caps@.len() == 1,
            caps@[0] == NodeCapability::StageUnstageVolume,
    {
        let mut caps: Vec<NodeCapability> = Vec::new();
        caps.push(NodeCapability::StageUnstageVolume);
        caps
    }

    /// The node's identity report: its id, with no volume limit and no
    /// topology constraint.
    pub fn node_get_info(&self) -> (info: NodeInfo)
        ensures
            info.node_id == self.node_id,
            info.max_volumes_per_node == 0,
    {
        NodeInfo { node_id: self.node_id.clone(), max_volumes_per_node: 0 }
    }
}

} // verus!
