//! Context synchronization: the messages that emitter and receiver exchange
//! to keep their contexts equal, their wire format, and the state machine
//! that decides when to ask for a resynchronization.

use vstd::prelude::*;
use crate::bytes::{
    be16, be32, be64, copy_range, get_be16, get_be32, get_be64, lemma_be16_roundtrip, lemma_be32_roundtrip,
    lemma_be64_roundtrip, push_all, push_be16, push_be32, push_be64, read_be16, read_be32, read_be64,
};
use crate::context::{
    export_entries, export_entry, fresh_pattern, hash_input, lemma_export_entries_cons, with_pattern, without_pattern, Context, ContextView,
    Pattern, PatternView,
};
use crate::error::{AlecError, ContextError};
use crate::hashing::xxh64_digest;
use crate::sorted_map::{as_map, has_key, key_index, keys_of, lemma_key_index, lemma_keys_of, sorted_keys, view_pairs};

verus! {

/// Announcement of the current context state.
#[derive(Debug, Clone, Copy, PartialEq, Eq, Structural)]
pub struct SyncAnnounce {
    /// Current context version
    pub version: u32,
    /// Hash of the context for verification
    pub hash: u64,
    /// Number of patterns in dictionary
    pub pattern_count: u16,
}

/// Request for synchronization.
#[derive(Debug, Clone, Copy, PartialEq, Eq)]
pub struct SyncRequest {
    /// Starting version for incremental sync
    pub from_version: u32,
    /// Target version (None = latest)
    pub to_version: Option<u32>,
}

/// A context diff, by value.
#[verifier::ext_equal]
pub struct SyncDiffView {
    pub base_version: u32,
    pub new_version: u32,
    pub added: Seq<(u32, PatternView)>,
    pub removed: Seq<u32>,
    pub hash: u64,
}

/// Context diff for incremental synchronization.
#[derive(Debug, Clone, PartialEq)]
pub struct SyncDiff {
    /// Base version this diff applies to
    pub base_version: u32,
    /// New version after applying diff
    pub new_version: u32,
    /// Patterns added (id, pattern)
    pub added: Vec<(u32, Pattern)>,
    /// Pattern IDs removed
    pub removed: Vec<u32>,
    /// Hash of the resulting context
    pub hash: u64,
}

impl View for SyncDiff {
    type V = SyncDiffView;

    open spec fn view(&self) -> SyncDiffView {
        SyncDiffView {
            base_version: self.base_version,
            new_version: self.new_version,
            added: view_pairs(self.added@),
            removed: self.removed@,
            hash: self.hash,
        }
    }
}

/// Request for a range of historical data.
#[derive(Debug, Clone, Copy, PartialEq, Eq, Structural)]
pub struct RangeRequest {
    /// Source ID to request data from
    pub source_id: u32,
    /// Start timestamp
    pub from_timestamp: u64,
    /// End timestamp
    pub to_timestamp: u64,
}

/// Response with the full data of one message.
#[derive(Debug, Clone, Copy, PartialEq, Eq, Structural)]
pub struct DetailResponse {
    /// Sequence number of the original message
    pub sequence: u32,
    /// Source of the data point
    pub source_id: u32,
    /// Timestamp of the data point
    pub timestamp: u64,
    /// Bit pattern of the `f64` value of the data point
    pub value_bits: u64,
}

/// A synchronization message, by value.
pub enum SyncMessageView {
    Announce(SyncAnnounce),
    Request(SyncRequest),
    Diff(SyncDiffView),
    ReqDetail(u32),
    ReqRange(RangeRequest),
    DetailResponse(DetailResponse),
}

/// Synchronization message.
#[derive(Debug, Clone, PartialEq)]
pub enum SyncMessage {
    /// Periodic state announcement
    Announce(SyncAnnounce),
    /// Request synchronization
    Request(SyncRequest),
    /// Context diff
    Diff(SyncDiff),
    /// Request detailed data for a sequence
    ReqDetail(u32),
    /// Request data range
    ReqRange(RangeRequest),
    /// Detail response with full data
    DetailResponse(DetailResponse),
}

impl View for SyncMessage {
    type V = SyncMessageView;

    open spec fn view(&self) -> SyncMessageView {
        match self {
            SyncMessage::Announce(a) => SyncMessageView::Announce(*a),
            SyncMessage::Request(r) => SyncMessageView::Request(*r),
            SyncMessage::Diff(d) => SyncMessageView::Diff(d@),
            SyncMessage::ReqDetail(s) => SyncMessageView::ReqDetail(*s),
            SyncMessage::ReqRange(r) => SyncMessageView::ReqRange(*r),
            SyncMessage::DetailResponse(d) => SyncMessageView::DetailResponse(*d),
        }
    }
}

/// Synchronization state machine states.
#[derive(Debug, Clone, Copy, PartialEq, Eq, Structural, Default)]
pub enum SyncState {
    /// Contexts are synchronized
    #[default]
    Synchronized,
    /// Waiting for sync response
    WaitingForSync {
        /// When the request was made (observation count)
        requested_at: u64,
    },
    /// Currently applying received diff
    Applying,
    /// Sync failed, need full resync
    Diverged,
}

/// Configuration of synchronization.
#[derive(Debug, Clone, Copy)]
pub struct SyncConfig {
    /// How often to send announcements (in messages)
    pub announce_interval: u32,
    /// Max version gap before full resync
    pub max_version_gap: u32,
    /// Timeout for sync requests (in observations)
    pub sync_timeout: u64,
    /// Whether to automatically request sync on mismatch
    pub auto_sync: bool,
}

/// The default synchronization settings: announce every 100 messages, a
/// gap of at most 10 versions, a timeout of 1000 observations, automatic
/// requests.
pub open spec fn default_sync_config() -> SyncConfig {
    SyncConfig { announce_interval: 100, max_version_gap: 10, sync_timeout: 1000, auto_sync: true }
}

impl Default for SyncConfig {
    fn default() -> (r: Self)
        ensures
            r == default_sync_config(),
    {
        SyncConfig { announce_interval: 100, max_version_gap: 10, sync_timeout: 1000, auto_sync: true }
    }
}

/// The distance between two versions.
pub open spec fn version_gap(a: u32, b: u32) -> int {
    if a >= b {
        a - b
    } else {
        b - a
    }
}

/// The hash of the dictionary of context `c`.
pub open spec fn context_hash(c: Context) -> u64 {
    xxh64_digest(hash_input(c.pattern_seq()), 0)
}

/// The entries of `s` whose code `old` lacks, in order.
pub open spec fn added_entries(s: Seq<(u32, PatternView)>, old: Map<u32, PatternView>) -> Seq<(u32, PatternView)>
    decreases s.len(),
{
    if s.len() == 0 {
        Seq::empty()
    } else if old.contains_key(s.last().0) {
        added_entries(s.drop_last(), old)
    } else {
        added_entries(s.drop_last(), old).push(s.last())
    }
}

/// The codes of `s` that `new` lacks, in order.
pub open spec fn removed_codes(s: Seq<(u32, PatternView)>, new: Map<u32, PatternView>) -> Seq<u32>
    decreases s.len(),
{
    if s.len() == 0 {
        Seq::empty()
    } else if new.contains_key(s.last().0) {
        removed_codes(s.drop_last(), new)
    } else {
        removed_codes(s.drop_last(), new).push(s.last().0)
    }
}

/// Context `v` after removing the patterns of `ids`, one after the other.
pub open spec fn without_patterns(v: ContextView, ids: Seq<u32>) -> ContextView
    decreases ids.len(),
{
    if ids.len() == 0 {
        v
    } else {
        without_pattern(without_patterns(v, ids.drop_last()), ids.last())
    }
}

/// Context `v` after storing the patterns of `added`, one after the other.
pub open spec fn with_patterns(v: ContextView, added: Seq<(u32, PatternView)>) -> ContextView
    decreases added.len(),
{
    if added.len() == 0 {
        v
    } else {
        with_pattern(with_patterns(v, added.drop_last()), added.last().0, added.last().1)
    }
}

/// Context `v` after applying `diff`, before the hash check: removals, then
/// additions, then the new version.
pub open spec fn applied(v: ContextView, diff: SyncDiffView) -> ContextView {
    ContextView { version: diff.new_version, ..with_patterns(without_patterns(v, diff.removed), diff.added) }
}

/// A copy of the dictionary entries of `ctx`, in code order.
fn copy_patterns(ctx: &Context) -> (r: Vec<(u32, Pattern)>)
    requires
        ctx.wf(),
    ensures
        view_pairs(r@) == ctx.pattern_seq(),
{
    let entries = ctx.patterns_iter();
    let mut r: Vec<(u32, Pattern)> = Vec::new();
    let mut i: usize = 0;
    while i < entries.len()
        invariant
            i <= entries@.len(),
            view_pairs(entries@) == ctx.pattern_seq(),
            view_pairs(r@) == view_pairs(entries@).take(i as int),
        decreases entries@.len() - i,
    {
        let code = entries[i].0;
        let p = entries[i].1.duplicate();
        let ghost before = r@;
        r.push((code, p));
        proof {
            assert(view_pairs(r@) =~= view_pairs(before).push((code, p@)));
            assert(view_pairs(entries@)[i as int] == (code, entries@[i as int].1@));
            assert(view_pairs(entries@).take(i + 1) =~= view_pairs(entries@).take(i as int).push((code, p@)));
        }
        i = i + 1;
    }
    assert(view_pairs(entries@).take(i as int) =~= view_pairs(entries@));
    r
}

/// Context synchronizer: the synchronization state and its settings.
#[derive(Debug)]
pub struct Synchronizer {
    /// Current sync state
    pub state: SyncState,
    /// Local context version (cached)
    pub local_version: u32,
    /// Remote context version (if known)
    pub remote_version: Option<u32>,
    /// Number of messages since last announce
    pub messages_since_announce: u32,
    /// Pending sync requests
    pub pending_requests: Vec<SyncRequest>,
    /// Configuration
    pub config: SyncConfig,
}

impl Synchronizer {
    /// A synchronizer in the synchronized state with the default settings.
    pub fn new() -> (r: Self)
        ensures
            r.state == SyncState::Synchronized,
            r.local_version == 0,
            r.remote_version is None,
            r.messages_since_announce == 0,
            r.pending_requests@ == Seq::<SyncRequest>::empty(),
            r.config == default_sync_config(),
    {
        Self::with_config(SyncConfig::default())
    }

    /// A synchronizer in the synchronized state with the given settings.
    pub fn with_config(config: SyncConfig) -> (r: Self)
        ensures
            r.state == SyncState::Synchronized,
            r.local_version == 0,
            r.remote_version is None,
            r.messages_since_announce == 0,
            r.pending_requests@ == Seq::<SyncRequest>::empty(),
            r.config == config,
    {
        Synchronizer {
            state: SyncState::Synchronized,
            local_version: 0,
            remote_version: None,
            messages_since_announce: 0,
            pending_requests: Vec::new(),
            config,
        }
    }

    /// The current state.
    pub fn state(&self) -> (r: &SyncState)
        ensures
            *r == self.state,
    {
        &self.state
    }

    /// Whether the contexts are synchronized.
    pub fn is_synchronized(&self) -> (r: bool)
        ensures
            r == (self.state is Synchronized),
    {
        match self.state {
            SyncState::Synchronized => true,
            _ => false,
        }
    }

    /// Records the local context version.
    pub fn update_local_version(&mut self, version: u32)
        ensures
            final(self).local_version == version,
            final(self).state == old(self).state,
            final(self).remote_version == old(self).remote_version,
            final(self).messages_since_announce == old(self).messages_since_announce,
            final(self).pending_requests@ == old(self).pending_requests@,
            final(self).config == old(self).config,
    {
        self.local_version = version;
    }

    /// Counts one message and says whether an announcement is due: every
    /// `announce_interval` messages, after which the count starts again.
    pub fn should_announce(&mut self) -> (r: bool)
        requires
            old(self).messages_since_announce < u32::MAX,
        ensures
            r == (old(self).messages_since_announce + 1 >= old(self).config.announce_interval),
            final(self).messages_since_announce == if r {
                0
            } else {
                old(self).messages_since_announce + 1
            },
            final(self).state == old(self).state,
            final(self).local_version == old(self).local_version,
            final(self).remote_version == old(self).remote_version,
            final(self).pending_requests@ == old(self).pending_requests@,
            final(self).config == old(self).config,
    {
        self.messages_since_announce = self.messages_since_announce + 1;
        if self.messages_since_announce >= self.config.announce_interval {
            self.messages_since_announce = 0;
            true
        } else {
            false
        }
    }

    /// Decides, from a peer's announced version and hash, whether the local
    /// context must be synchronized, and what to ask the peer for.
    pub fn check_sync_needed(&mut self, remote_version: u32, remote_hash: u64, local: &Context) -> (r: Option<
        SyncMessage,
    >)
        requires
            local.wf(),
        ensures
            final(self).local_version == old(self).local_version,
            final(self).messages_since_announce == old(self).messages_since_announce,
            final(self).pending_requests@ == old(self).pending_requests@,
            final(self).config == old(self).config,
            ({
                let lv = local@.version;
                let lh = context_hash(*local);
                if remote_version == lv && remote_hash == lh {
                    &&& r is None
                    &&& final(self).state == SyncState::Synchronized
                    &&& final(self).remote_version == Some(remote_version)
                } else if version_gap(remote_version, lv) > old(self).config.max_version_gap || remote_version == lv {
                    &&& r == Some(
                        SyncMessage::Request(SyncRequest { from_version: 0, to_version: Some(remote_version) }),
                    )
                    &&& final(self).state == SyncState::Diverged
                    &&& final(self).remote_version == old(self).remote_version
                } else {
                    &&& r == if old(self).config.auto_sync {
                        Some(SyncMessage::Request(SyncRequest { from_version: lv, to_version: Some(remote_version) }))
                    } else {
                        None
                    }
                    &&& final(self).state == SyncState::WaitingForSync { requested_at: 0 }
                    &&& final(self).remote_version == Some(remote_version)
                }
            }),
    {
        let local_version = local.version();
        let local_hash = local.hash();
        if remote_version == local_version && remote_hash == local_hash {
            self.state = SyncState::Synchronized;
            self.remote_version = Some(remote_version);
            return None;
        }
        let gap = if remote_version >= local_version {
            remote_version - local_version
        } else {
            local_version - remote_version
        };
        if gap > self.config.max_version_gap {
            self.state = SyncState::Diverged;
            return Some(SyncMessage::Request(SyncRequest { from_version: 0, to_version: Some(remote_version) }));
        }
        if remote_version == local_version && remote_hash != local_hash {
            self.state = SyncState::Diverged;
            return Some(SyncMessage::Request(SyncRequest { from_version: 0, to_version: Some(remote_version) }));
        }
        self.state = SyncState::WaitingForSync { requested_at: 0 };
        self.remote_version = Some(remote_version);
        if self.config.auto_sync {
            Some(SyncMessage::Request(SyncRequest { from_version: local_version, to_version: Some(remote_version) }))
        } else {
            None
        }
    }

    /// Answers a peer's request with a diff that carries every pattern of
    /// the local context.
    pub fn handle_request(&mut self, request: &SyncRequest, local: &Context) -> (r: Option<SyncMessage>)
        requires
            local.wf(),
        ensures
            r matches Some(SyncMessage::Diff(d)) && d@ == (SyncDiffView {
                base_version: request.from_version,
                new_version: local@.version,
                added: local.pattern_seq(),
                removed: Seq::empty(),
                hash: context_hash(*local),
            }),
            final(self).state == old(self).state,
            final(self).local_version == old(self).local_version,
            final(self).remote_version == old(self).remote_version,
            final(self).messages_since_announce == old(self).messages_since_announce,
            final(self).pending_requests@ == old(self).pending_requests@,
            final(self).config == old(self).config,
    {
        Some(SyncMessage::Diff(Self::generate_diff_from_version(request.from_version, local)))
    }

    /// The diff that turns `old_ctx` into `new_ctx`: the patterns of the new
    /// context under codes the old one lacks, and the codes of the old one
    /// that the new one lacks.
    pub fn generate_diff(old_ctx: &Context, new_ctx: &Context) -> (r: SyncDiff)
        requires
            old_ctx.wf(),
            new_ctx.wf(),
        ensures
            r@ == (SyncDiffView {
                base_version: old_ctx@.version,
                new_version: new_ctx@.version,
                added: added_entries(new_ctx.pattern_seq(), old_ctx@.patterns),
                removed: removed_codes(old_ctx.pattern_seq(), new_ctx@.patterns),
                hash: context_hash(*new_ctx),
            }),
            forall|c: u32| #[trigger]
                r@.removed.contains(c) <==> (old_ctx@.patterns.contains_key(c) && !new_ctx@.patterns.contains_key(c)),
    {
        proof {
            lemma_diff_carries_changes(*old_ctx, *new_ctx);
        }
        let new_entries = new_ctx.patterns_iter();
        let mut added: Vec<(u32, Pattern)> = Vec::new();
        let mut i: usize = 0;
        while i < new_entries.len()
            invariant
                i <= new_entries@.len(),
                old_ctx.wf(),
                view_pairs(new_entries@) == new_ctx.pattern_seq(),
                view_pairs(added@) == added_entries(new_ctx.pattern_seq().take(i as int), old_ctx@.patterns),
            decreases new_entries@.len() - i,
        {
            let code = new_entries[i].0;
            proof {
                let s = new_ctx.pattern_seq();
                assert(s.take(i + 1).drop_last() =~= s.take(i as int));
            }
            if !old_ctx.has_pattern(code) {
                let p = new_entries[i].1.duplicate();
                added.push((code, p));
                assert(view_pairs(added@) =~= added_entries(new_ctx.pattern_seq().take(i + 1), old_ctx@.patterns));
            }
            i = i + 1;
        }
        assert(new_ctx.pattern_seq().take(i as int) =~= new_ctx.pattern_seq());
        let old_entries = old_ctx.patterns_iter();
        let mut removed: Vec<u32> = Vec::new();
        let mut j: usize = 0;
        while j < old_entries.len()
            invariant
                j <= old_entries@.len(),
                new_ctx.wf(),
                view_pairs(old_entries@) == old_ctx.pattern_seq(),
                removed@ == removed_codes(old_ctx.pattern_seq().take(j as int), new_ctx@.patterns),
            decreases old_entries@.len() - j,
        {
            let code = old_entries[j].0;
            proof {
                let s = old_ctx.pattern_seq();
                assert(s.take(j + 1).drop_last() =~= s.take(j as int));
            }
            if !new_ctx.has_pattern(code) {
                removed.push(code);
                assert(removed@ =~= removed_codes(old_ctx.pattern_seq().take(j + 1), new_ctx@.patterns));
            }
            j = j + 1;
        }
        assert(old_ctx.pattern_seq().take(j as int) =~= old_ctx.pattern_seq());
        SyncDiff {
            base_version: old_ctx.version(),
            new_version: new_ctx.version(),
            added,
            removed,
            hash: new_ctx.hash(),
        }
    }

    /// The diff from `from_version` to `ctx`: every pattern of `ctx`, as no
    /// history is kept.
    fn generate_diff_from_version(from_version: u32, ctx: &Context) -> (r: SyncDiff)
        requires
            ctx.wf(),
        ensures
            r@ == (SyncDiffView {
                base_version: from_version,
                new_version: ctx@.version,
                added: ctx.pattern_seq(),
                removed: Seq::empty(),
                hash: context_hash(*ctx),
            }),
    {
        SyncDiff {
            base_version: from_version,
            new_version: ctx.version(),
            added: copy_patterns(ctx),
            removed: Vec::new(),
            hash: ctx.hash(),
        }
    }

    /// Applies `diff` to `context`: removes its codes, stores its patterns,
    /// sets its version, then checks the hash of the result against the
    /// diff's.
    pub fn apply_diff(context: &mut Context, diff: &SyncDiff) -> (r: Result<(), AlecError>)
        requires
            old(context).wf(),
            forall|i: int| 0 <= i < diff.added@.len() ==> #[trigger] diff.added@[i].0 < u32::MAX,
        ensures
            final(context).wf(),
            final(context)@ == applied(old(context)@, diff@),
            r == if context_hash(*final(context)) == diff.hash {
                Ok::<(), AlecError>(())
            } else {
                Err(
                    AlecError::Context(
                        ContextError::HashMismatch { expected: diff.hash, actual: context_hash(*final(context)) },
                    ),
                )
            },
    {
        let ghost v0 = context@;
        let mut i: usize = 0;
        while i < diff.removed.len()
            invariant
                i <= diff.removed@.len(),
                context.wf(),
                context@ == without_patterns(v0, diff.removed@.take(i as int)),
            decreases diff.removed@.len() - i,
        {
            context.remove_pattern(diff.removed[i]);
            proof {
                assert(diff.removed@.take(i + 1).drop_last() =~= diff.removed@.take(i as int));
            }
            i = i + 1;
        }
        assert(diff.removed@.take(i as int) =~= diff.removed@);
        let ghost v1 = context@;
        let mut j: usize = 0;
        while j < diff.added.len()
            invariant
                j <= diff.added@.len(),
                context.wf(),
                forall|k: int| 0 <= k < diff.added@.len() ==> #[trigger] diff.added@[k].0 < u32::MAX,
                context@ == with_patterns(v1, view_pairs(diff.added@).take(j as int)),
            decreases diff.added@.len() - j,
        {
            let id = diff.added[j].0;
            let p = diff.added[j].1.duplicate();
            proof {
                assert(diff.added@[j as int].0 < u32::MAX);
            }
            context.set_pattern(id, p);
            proof {
                let s = view_pairs(diff.added@);
                assert(s.take(j + 1).drop_last() =~= s.take(j as int));
            }
            j = j + 1;
        }
        assert(view_pairs(diff.added@).take(j as int) =~= view_pairs(diff.added@));
        context.set_version(diff.new_version);
        let actual = context.hash();
        if actual != diff.hash {
            return Err(AlecError::Context(ContextError::HashMismatch { expected: diff.hash, actual }));
        }
        Ok(())
    }

    /// Applies a received diff: the state is synchronized when it applies,
    /// diverged when its hash does not match.
    pub fn handle_diff(&mut self, diff: &SyncDiff, context: &mut Context) -> (r: Result<(), AlecError>)
        requires
            old(context).wf(),
            forall|i: int| 0 <= i < diff.added@.len() ==> #[trigger] diff.added@[i].0 < u32::MAX,
        ensures
            final(context).wf(),
            final(context)@ == applied(old(context)@, diff@),
            r == if context_hash(*final(context)) == diff.hash {
                Ok::<(), AlecError>(())
            } else {
                Err(
                    AlecError::Context(
                        ContextError::HashMismatch { expected: diff.hash, actual: context_hash(*final(context)) },
                    ),
                )
            },
            r is Ok ==> final(self).state == SyncState::Synchronized && final(self).local_version
                == final(context)@.version,
            r is Err ==> final(self).state == SyncState::Diverged && final(self).local_version
                == old(self).local_version,
            final(self).remote_version == old(self).remote_version,
            final(self).messages_since_announce == old(self).messages_since_announce,
            final(self).pending_requests@ == old(self).pending_requests@,
            final(self).config == old(self).config,
    {
        self.state = SyncState::Applying;
        match Self::apply_diff(context, diff) {
            Ok(()) => {
                self.state = SyncState::Synchronized;
                self.local_version = context.version();
                Ok(())
            },
            Err(e) => {
                self.state = SyncState::Diverged;
                Err(e)
            },
        }
    }

    /// An announcement of `context`: its version, hash and pattern count
    /// (modulo 2^16).
    pub fn create_announce(context: &Context) -> (r: SyncMessage)
        requires
            context.wf(),
        ensures
            r == SyncMessage::Announce(
                SyncAnnounce {
                    version: context@.version,
                    hash: context_hash(*context),
                    pattern_count: context.pattern_seq().len() as u16,
                },
            ),
    {
        SyncMessage::Announce(
            SyncAnnounce {
                version: context.version(),
                hash: context.hash(),
                pattern_count: context.pattern_count() as u16,
            },
        )
    }

    /// A sync request message.
    pub fn create_request(from_version: u32, to_version: Option<u32>) -> (r: SyncMessage)
        ensures
            r == SyncMessage::Request(SyncRequest { from_version, to_version }),
    {
        SyncMessage::Request(SyncRequest { from_version, to_version })
    }

    /// A detail request message.
    pub fn create_detail_request(sequence: u32) -> (r: SyncMessage)
        ensures
            r == SyncMessage::ReqDetail(sequence),
    {
        SyncMessage::ReqDetail(sequence)
    }

    /// A range request message.
    pub fn create_range_request(source_id: u32, from_timestamp: u64, to_timestamp: u64) -> (r: SyncMessage)
        ensures
            r == SyncMessage::ReqRange(RangeRequest { source_id, from_timestamp, to_timestamp }),
    {
        SyncMessage::ReqRange(RangeRequest { source_id, from_timestamp, to_timestamp })
    }

    /// A detail response message for the data point of message `sequence`.
    pub fn create_detail_response(sequence: u32, source_id: u32, value_bits: u64, timestamp: u64) -> (r:
        SyncMessage)
        ensures
            r == SyncMessage::DetailResponse(DetailResponse { sequence, source_id, timestamp, value_bits }),
    {
        SyncMessage::DetailResponse(DetailResponse { sequence, source_id, timestamp, value_bits })
    }

    /// Whether a pending request has waited more than the timeout at
    /// `current_time`; if so the state becomes diverged.
    pub fn check_timeout(&mut self, current_time: u64) -> (r: bool)
        requires
            old(self).state matches SyncState::WaitingForSync { requested_at } ==> current_time >= requested_at,
        ensures
            r == (old(self).state matches SyncState::WaitingForSync { requested_at } && current_time - requested_at
                > old(self).config.sync_timeout),
            final(self).state == if r {
                SyncState::Diverged
            } else {
                old(self).state
            },
            final(self).local_version == old(self).local_version,
            final(self).remote_version == old(self).remote_version,
            final(self).messages_since_announce == old(self).messages_since_announce,
            final(self).pending_requests@ == old(self).pending_requests@,
            final(self).config == old(self).config,
    {
        if let SyncState::WaitingForSync { requested_at } = self.state {
            if current_time - requested_at > self.config.sync_timeout {
                self.state = SyncState::Diverged;
                return true;
            }
        }
        false
    }

    /// Back to the synchronized state with no version known and no request
    /// pending; the settings stay.
    pub fn reset(&mut self)
        ensures
            final(self).state == SyncState::Synchronized,
            final(self).local_version == 0,
            final(self).remote_version is None,
            final(self).messages_since_announce == 0,
            final(self).pending_requests@ == Seq::<SyncRequest>::empty(),
            final(self).config == old(self).config,
    {
        self.state = SyncState::Synchronized;
        self.local_version = 0;
        self.remote_version = None;
        self.messages_since_announce = 0;
        self.pending_requests.clear();
    }
}

impl Default for Synchronizer {
    fn default() -> (r: Self)
        ensures
            r.state == SyncState::Synchronized,
            r.local_version == 0,
            r.remote_version is None,
            r.messages_since_announce == 0,
            r.pending_requests@ == Seq::<SyncRequest>::empty(),
            r.config == default_sync_config(),
    {
        Self::new()
    }
}

/// Message type identifier on the wire.
#[derive(Debug, Clone, Copy, PartialEq, Eq, Structural)]
pub enum SyncMessageType {
    Announce,
    Request,
    Diff,
    ReqDetail,
    ReqRange,
    DetailResponse,
}

impl SyncMessageType {
    /// The byte that identifies the type: 0x10 to 0x15 in declaration order.
    pub open spec fn spec_to_u8(self) -> u8 {
        match self {
            SyncMessageType::Announce => 0x10,
            SyncMessageType::Request => 0x11,
            SyncMessageType::Diff => 0x12,
            SyncMessageType::ReqDetail => 0x13,
            SyncMessageType::ReqRange => 0x14,
            SyncMessageType::DetailResponse => 0x15,
        }
    }

    /// The byte that identifies the type.
    pub fn to_u8(&self) -> (r: u8)
        ensures
            r == self.spec_to_u8(),
    {
        match self {
            SyncMessageType::Announce => 0x10,
            SyncMessageType::Request => 0x11,
            SyncMessageType::Diff => 0x12,
            SyncMessageType::ReqDetail => 0x13,
            SyncMessageType::ReqRange => 0x14,
            SyncMessageType::DetailResponse => 0x15,
        }
    }
}

/// The type of a message.
pub open spec fn message_type_of(m: SyncMessageView) -> SyncMessageType {
    match m {
        SyncMessageView::Announce(_) => SyncMessageType::Announce,
        SyncMessageView::Request(_) => SyncMessageType::Request,
        SyncMessageView::Diff(_) => SyncMessageType::Diff,
        SyncMessageView::ReqDetail(_) => SyncMessageType::ReqDetail,
        SyncMessageView::ReqRange(_) => SyncMessageType::ReqRange,
        SyncMessageView::DetailResponse(_) => SyncMessageType::DetailResponse,
    }
}

/// The big-endian bytes of each code of `ids`, in order.
pub open spec fn id_bytes(ids: Seq<u32>) -> Seq<u8>
    decreases ids.len(),
{
    if ids.len() == 0 {
        Seq::empty()
    } else {
        id_bytes(ids.drop_last()) + be32(ids.last())
    }
}

/// The wire form of a message: its type byte, then its fields big-endian; a
/// diff lists its added patterns as code, length byte (modulo 256) and
/// bytes, and its removed codes, each list behind its count (modulo 2^16).
pub open spec fn sync_bytes(m: SyncMessageView) -> Seq<u8> {
    match m {
        SyncMessageView::Announce(a) => seq![0x10u8] + be32(a.version) + be64(a.hash) + be16(a.pattern_count),
        SyncMessageView::Request(r) => seq![0x11u8] + be32(r.from_version) + match r.to_version {
            Some(t) => seq![1u8] + be32(t),
            None => seq![0u8],
        },
        SyncMessageView::Diff(d) => seq![0x12u8] + be32(d.base_version) + be32(d.new_version) + be64(d.hash) + be16(
            d.added.len() as u16,
        ) + export_entries(d.added) + be16(d.removed.len() as u16) + id_bytes(d.removed),
        SyncMessageView::ReqDetail(sequence) => seq![0x13u8] + be32(sequence),
        SyncMessageView::ReqRange(r) => seq![0x14u8] + be32(r.source_id) + be64(r.from_timestamp) + be64(
            r.to_timestamp,
        ),
        SyncMessageView::DetailResponse(d) => seq![0x15u8] + be32(d.sequence) + be64(d.value_bits) + be64(
            d.timestamp,
        ) + be32(d.source_id),
    }
}

/// Reading `count` added patterns at `off`: the patterns, fresh, and the
/// offset after them, or nothing when one is cut short.
pub open spec fn read_added(s: Seq<u8>, off: int, count: nat) -> Option<(Seq<(u32, PatternView)>, int)>
    decreases count,
{
    if count == 0 {
        Some((Seq::empty(), off))
    } else if off + 5 > s.len() {
        None
    } else if off + 5 + s[off + 4] > s.len() {
        None
    } else {
        let len = s[off + 4] as int;
        match read_added(s, off + 5 + len, (count - 1) as nat) {
            Some((rest, end)) => Some(
                (seq![(read_be32(s, off), fresh_pattern(s.subrange(off + 5, off + 5 + len)))] + rest, end),
            ),
            None => None,
        }
    }
}

/// Reading `count` codes at `off`, or nothing when one is cut short.
pub open spec fn read_ids(s: Seq<u8>, off: int, count: nat) -> Option<Seq<u32>>
    decreases count,
{
    if count == 0 {
        Some(Seq::empty())
    } else if off + 4 > s.len() {
        None
    } else {
        match read_ids(s, off + 4, (count - 1) as nat) {
            Some(rest) => Some(seq![read_be32(s, off)] + rest),
            None => None,
        }
    }
}

/// Reading a diff message whose added patterns end at `off`.
pub open spec fn diff_after_added(s: Seq<u8>, r: Option<(Seq<(u32, PatternView)>, int)>) -> Option<SyncMessageView> {
    match r {
        None => None,
        Some((added, off)) => if off + 2 > s.len() {
            None
        } else {
            match read_ids(s, off + 2, read_be16(s, off) as nat) {
                None => None,
                Some(removed) => Some(
                    SyncMessageView::Diff(
                        SyncDiffView {
                            base_version: read_be32(s, 1),
                            new_version: read_be32(s, 5),
                            added,
                            removed,
                            hash: read_be64(s, 9),
                        },
                    ),
                ),
            }
        },
    }
}

/// Reading a message: its type byte decides its fields; too few bytes, or
/// an unknown type, give nothing. Bytes past the fields are ignored.
pub open spec fn sync_parse(s: Seq<u8>) -> Option<SyncMessageView> {
    if s.len() == 0 {
        None
    } else if s[0] == 0x10 && s.len() >= 15 {
        Some(
            SyncMessageView::Announce(
                SyncAnnounce { version: read_be32(s, 1), hash: read_be64(s, 5), pattern_count: read_be16(s, 13) },
            ),
        )
    } else if s[0] == 0x11 && s.len() >= 6 {
        Some(
            SyncMessageView::Request(
                SyncRequest {
                    from_version: read_be32(s, 1),
                    to_version: if s[5] != 0 && s.len() >= 10 {
                        Some(read_be32(s, 6))
                    } else {
                        None
                    },
                },
            ),
        )
    } else if s[0] == 0x13 && s.len() >= 5 {
        Some(SyncMessageView::ReqDetail(read_be32(s, 1)))
    } else if s[0] == 0x14 && s.len() >= 21 {
        Some(
            SyncMessageView::ReqRange(
                RangeRequest {
                    source_id: read_be32(s, 1),
                    from_timestamp: read_be64(s, 5),
                    to_timestamp: read_be64(s, 13),
                },
            ),
        )
    } else if s[0] == 0x15 && s.len() >= 21 {
        Some(
            SyncMessageView::DetailResponse(
                DetailResponse {
                    sequence: read_be32(s, 1),
                    value_bits: read_be64(s, 5),
                    timestamp: read_be64(s, 13),
                    source_id: if s.len() >= 25 {
                        read_be32(s, 21)
                    } else {
                        0
                    },
                },
            ),
        )
    } else if s[0] == 0x12 && s.len() >= 21 {
        diff_after_added(s, read_added(s, 19, read_be16(s, 17) as nat))
    } else {
        None
    }
}

/// Puts `done` before the patterns a read gave, if it succeeded.
pub open spec fn added_after(done: Seq<(u32, PatternView)>, r: Option<(Seq<(u32, PatternView)>, int)>) -> Option<
    (Seq<(u32, PatternView)>, int),
> {
    match r {
        Some((rest, end)) => Some((done + rest, end)),
        None => None,
    }
}

/// Puts `done` before the codes a read gave, if it succeeded.
pub open spec fn ids_after(done: Seq<u32>, r: Option<Seq<u32>>) -> Option<Seq<u32>> {
    match r {
        Some(rest) => Some(done + rest),
        None => None,
    }
}

impl SyncMessage {
    /// The type of this message.
    pub fn message_type(&self) -> (r: SyncMessageType)
        ensures
            r == message_type_of(self@),
    {
        match self {
            SyncMessage::Announce(_) => SyncMessageType::Announce,
            SyncMessage::Request(_) => SyncMessageType::Request,
            SyncMessage::Diff(_) => SyncMessageType::Diff,
            SyncMessage::ReqDetail(_) => SyncMessageType::ReqDetail,
            SyncMessage::ReqRange(_) => SyncMessageType::ReqRange,
            SyncMessage::DetailResponse(_) => SyncMessageType::DetailResponse,
        }
    }

    /// The wire form of this message.
    pub fn to_bytes(&self) -> (r: Vec<u8>)
        ensures
            r@ == sync_bytes(self@),
    {
        let mut bytes: Vec<u8> = Vec::new();
        match self {
            SyncMessage::Announce(a) => {
                bytes.push(0x10);
                push_be32(&mut bytes, a.version);
                push_be64(&mut bytes, a.hash);
                push_be16(&mut bytes, a.pattern_count);
            },
            SyncMessage::Request(r) => {
                bytes.push(0x11);
                push_be32(&mut bytes, r.from_version);
                match r.to_version {
                    Some(to) => {
                        bytes.push(1);
                        push_be32(&mut bytes, to);
                    },
                    None => {
                        bytes.push(0);
                    },
                }
            },
            SyncMessage::Diff(d) => {
                bytes.push(0x12);
                push_be32(&mut bytes, d.base_version);
                push_be32(&mut bytes, d.new_version);
                push_be64(&mut bytes, d.hash);
                push_be16(&mut bytes, d.added.len() as u16);
                let ghost head = bytes@;
                let mut i: usize = 0;
                while i < d.added.len()
                    invariant
                        i <= d.added@.len(),
                        bytes@ == head + export_entries(view_pairs(d.added@).take(i as int)),
                    decreases d.added@.len() - i,
                {
                    let id = d.added[i].0;
                    let p = &d.added[i].1;
                    push_be32(&mut bytes, id);
                    bytes.push((p.data.len() % 256) as u8);
                    push_all(&mut bytes, p.data.as_slice());
                    proof {
                        let s = view_pairs(d.added@);
                        assert(s.take(i + 1).drop_last() =~= s.take(i as int));
                        assert(s[i as int] == (id, p@));
                        assert(bytes@ =~= head + export_entries(s.take(i + 1)));
                    }
                    i = i + 1;
                }
                assert(view_pairs(d.added@).take(i as int) =~= view_pairs(d.added@));
                push_be16(&mut bytes, d.removed.len() as u16);
                let ghost head2 = bytes@;
                let mut j: usize = 0;
                while j < d.removed.len()
                    invariant
                        j <= d.removed@.len(),
                        bytes@ == head2 + id_bytes(d.removed@.take(j as int)),
                    decreases d.removed@.len() - j,
                {
                    push_be32(&mut bytes, d.removed[j]);
                    proof {
                        assert(d.removed@.take(j + 1).drop_last() =~= d.removed@.take(j as int));
                        assert(bytes@ =~= head2 + id_bytes(d.removed@.take(j + 1)));
                    }
                    j = j + 1;
                }
                assert(d.removed@.take(j as int) =~= d.removed@);
            },
            SyncMessage::ReqDetail(sequence) => {
                bytes.push(0x13);
                push_be32(&mut bytes, *sequence);
            },
            SyncMessage::ReqRange(r) => {
                bytes.push(0x14);
                push_be32(&mut bytes, r.source_id);
                push_be64(&mut bytes, r.from_timestamp);
                push_be64(&mut bytes, r.to_timestamp);
            },
            SyncMessage::DetailResponse(d) => {
                bytes.push(0x15);
                push_be32(&mut bytes, d.sequence);
                push_be64(&mut bytes, d.value_bits);
                push_be64(&mut bytes, d.timestamp);
                push_be32(&mut bytes, d.source_id);
            },
        }
        assert(bytes@ =~= sync_bytes(self@));
        bytes
    }

    /// Reads a message from its wire form.
    pub fn from_bytes(bytes: &[u8]) -> (r: Option<Self>)
        ensures
            match r {
                Some(m) => sync_parse(bytes@) == Some(m@),
                None => sync_parse(bytes@) is None,
            },
    {
        if bytes.len() == 0 {
            return None;
        }
        let msg_type = bytes[0];
        let n = bytes.len();
        if msg_type == 0x10 && n >= 15 {
            Some(
                SyncMessage::Announce(
                    SyncAnnounce {
                        version: get_be32(bytes, 1),
                        hash: get_be64(bytes, 5),
                        pattern_count: get_be16(bytes, 13),
                    },
                ),
            )
        } else if msg_type == 0x11 && n >= 6 {
            let from_version = get_be32(bytes, 1);
            let has_to = bytes[5] != 0;
            let to_version = if has_to && n >= 10 {
                Some(get_be32(bytes, 6))
            } else {
                None
            };
            Some(SyncMessage::Request(SyncRequest { from_version, to_version }))
        } else if msg_type == 0x13 && n >= 5 {
            Some(SyncMessage::ReqDetail(get_be32(bytes, 1)))
        } else if msg_type == 0x14 && n >= 21 {
            Some(
                SyncMessage::ReqRange(
                    RangeRequest {
                        source_id: get_be32(bytes, 1),
                        from_timestamp: get_be64(bytes, 5),
                        to_timestamp: get_be64(bytes, 13),
                    },
                ),
            )
        } else if msg_type == 0x15 && n >= 21 {
            let sequence = get_be32(bytes, 1);
            let value_bits = get_be64(bytes, 5);
            let timestamp = get_be64(bytes, 13);
            let source_id = if n >= 25 {
                get_be32(bytes, 21)
            } else {
                0
            };
            Some(SyncMessage::DetailResponse(DetailResponse { sequence, source_id, timestamp, value_bits }))
        } else if msg_type == 0x12 && n >= 21 {
            Self::diff_from_bytes(bytes)
        } else {
            None
        }
    }

    /// Reads a diff message, whose type byte and fixed fields are there.
    fn diff_from_bytes(bytes: &[u8]) -> (r: Option<Self>)
        requires
            bytes@.len() >= 21,
            bytes@[0] == 0x12,
        ensures
            match r {
                Some(m) => sync_parse(bytes@) == Some(m@),
                None => sync_parse(bytes@) is None,
            },
    {
        let ghost s = bytes@;
        let base_version = get_be32(bytes, 1);
        let new_version = get_be32(bytes, 5);
        let hash = get_be64(bytes, 9);
        let added_count = get_be16(bytes, 17) as usize;
        let ghost full = read_added(s, 19, added_count as nat);
        proof {
            assert(sync_parse(s) == diff_after_added(s, full));
        }
        let ghost mut done: Seq<(u32, PatternView)> = Seq::empty();
        let mut added: Vec<(u32, Pattern)> = Vec::new();
        let mut offset: usize = 19;
        proof {
            match full {
                Some((rest, end)) => {
                    assert(done + rest =~= rest);
                },
                None => {},
            }
        }
        let mut k: usize = 0;
        while k < added_count
            invariant
                s == bytes@,
                19 <= offset <= s.len(),
                k <= added_count,
                full == read_added(s, 19, added_count as nat),
                sync_parse(s) == diff_after_added(s, full),
                base_version == read_be32(s, 1),
                new_version == read_be32(s, 5),
                hash == read_be64(s, 9),
                full == added_after(done, read_added(s, offset as int, (added_count - k) as nat)),
                view_pairs(added@) == done,
            decreases added_count - k,
        {
            if bytes.len() - offset < 5 {
                return None;
            }
            let id = get_be32(bytes, offset);
            let len = bytes[offset + 4] as usize;
            if bytes.len() - offset - 5 < len {
                return None;
            }
            let start = offset + 5;
            let pattern_data = copy_range(bytes, start, start + len);
            let p = Pattern::new(pattern_data);
            let ghost before = added@;
            added.push((id, p));
            proof {
                assert(view_pairs(added@) =~= view_pairs(before).push((id, p@)));
                let d1 = done.push((id, p@));
                let rest = read_added(s, (start + len) as int, (added_count - k - 1) as nat);
                match rest {
                    Some((rs, end)) => {
                        assert(done + (seq![(id, p@)] + rs) =~= d1 + rs);
                    },
                    None => {},
                }
                done = d1;
            }
            offset = start + len;
            k = k + 1;
        }
        proof {
            assert(done + Seq::<(u32, PatternView)>::empty() =~= done);
        }
        if bytes.len() - offset < 2 {
            return None;
        }
        let removed_count = get_be16(bytes, offset) as usize;
        offset = offset + 2;
        let ghost full_ids = read_ids(s, offset as int, removed_count as nat);
        let ghost added_view = done;
        proof {
            assert(sync_parse(s) == match full_ids {
                None => None,
                Some(removed) => Some(
                    SyncMessageView::Diff(SyncDiffView { base_version, new_version, added: added_view, removed, hash }),
                ),
            });
        }
        let ghost mut done_ids: Seq<u32> = Seq::empty();
        let mut removed: Vec<u32> = Vec::new();
        proof {
            match full_ids {
                Some(rest) => {
                    assert(done_ids + rest =~= rest);
                },
                None => {},
            }
        }
        let mut j: usize = 0;
        while j < removed_count
            invariant
                s == bytes@,
                offset <= s.len(),
                j <= removed_count,
                full_ids == ids_after(done_ids, read_ids(s, offset as int, (removed_count - j) as nat)),
                removed@ == done_ids,
                view_pairs(added@) == added_view,
                sync_parse(s) == match full_ids {
                    None => None,
                    Some(removed) => Some(
                        SyncMessageView::Diff(
                            SyncDiffView { base_version, new_version, added: added_view, removed, hash },
                        ),
                    ),
                },
            decreases removed_count - j,
        {
            if bytes.len() - offset < 4 {
                return None;
            }
            let id = get_be32(bytes, offset);
            removed.push(id);
            proof {
                let d1 = done_ids.push(id);
                let rest = read_ids(s, (offset + 4) as int, (removed_count - j - 1) as nat);
                match rest {
                    Some(rs) => {
                        assert(done_ids + (seq![id] + rs) =~= d1 + rs);
                    },
                    None => {},
                }
                done_ids = d1;
            }
            offset = offset + 4;
            j = j + 1;
        }
        proof {
            assert(done_ids + Seq::<u32>::empty() =~= done_ids);
        }
        Some(SyncMessage::Diff(SyncDiff { base_version, new_version, added, removed, hash }))
    }
}

/// A message as it reads back from its wire form: the patterns of a diff
/// come back fresh, as only their bytes travel.
pub open spec fn as_received(m: SyncMessageView) -> SyncMessageView {
    match m {
        SyncMessageView::Diff(d) => SyncMessageView::Diff(
            SyncDiffView {
                added: d.added.map_values(|e: (u32, PatternView)| (e.0, fresh_pattern(e.1.data))),
                ..d
            },
        ),
        _ => m,
    }
}

/// Whether the wire form can carry a message whole: a diff with fewer than
/// 2^16 added patterns, each shorter than 256 bytes, and fewer than 2^16
/// removed codes; any other message.
pub open spec fn encodable(m: SyncMessageView) -> bool {
    match m {
        SyncMessageView::Diff(d) => d.added.len() < 65536 && d.removed.len() < 65536 && forall|i: int|
            0 <= i < d.added.len() ==> #[trigger] d.added[i].1.data.len() < 256,
        _ => true,
    }
}

proof fn lemma_read_be16_at(s: Seq<u8>, off: int, v: u16)
    requires
        0 <= off,
        off + 2 <= s.len(),
        s.subrange(off, off + 2) == be16(v),
    ensures
        read_be16(s, off) == v,
{
    lemma_be16_roundtrip(v);
    assert(s[off] == s.subrange(off, off + 2)[0] && s[off + 1] == s.subrange(off, off + 2)[1]);
}

proof fn lemma_read_be32_at(s: Seq<u8>, off: int, v: u32)
    requires
        0 <= off,
        off + 4 <= s.len(),
        s.subrange(off, off + 4) == be32(v),
    ensures
        read_be32(s, off) == v,
{
    lemma_be32_roundtrip(v);
    let t = s.subrange(off, off + 4);
    assert(s[off] == t[0] && s[off + 1] == t[1] && s[off + 2] == t[2] && s[off + 3] == t[3]);
}

proof fn lemma_read_be64_at(s: Seq<u8>, off: int, v: u64)
    requires
        0 <= off,
        off + 8 <= s.len(),
        s.subrange(off, off + 8) == be64(v),
    ensures
        read_be64(s, off) == v,
{
    lemma_be64_roundtrip(v);
    let t = s.subrange(off, off + 8);
    let x = be64(v);
    assert(s[off] == x[0] && s[off + 1] == x[1] && s[off + 2] == x[2] && s[off + 3] == x[3]);
    assert(s[off + 4] == x[4] && s[off + 5] == x[5] && s[off + 6] == x[6] && s[off + 7] == x[7]);
}

/// The codes of a non-empty sequence: the first, then the others.
proof fn lemma_id_bytes_cons(ids: Seq<u32>)
    requires
        ids.len() > 0,
    ensures
        id_bytes(ids) == be32(ids[0]) + id_bytes(ids.drop_first()),
    decreases ids.len(),
{
    if ids.len() == 1 {
        assert(ids.drop_last() =~= Seq::<u32>::empty());
        assert(ids.drop_first() =~= Seq::<u32>::empty());
        assert(id_bytes(ids) =~= be32(ids[0]) + id_bytes(ids.drop_first()));
    } else {
        lemma_id_bytes_cons(ids.drop_last());
        assert(ids.drop_last().drop_first() =~= ids.drop_first().drop_last());
        assert(ids.drop_first().last() == ids.last());
        assert(ids.drop_last()[0] == ids[0]);
        assert(id_bytes(ids) =~= be32(ids[0]) + id_bytes(ids.drop_first()));
    }
}

/// The codes of `ids` read back from their bytes.
proof fn lemma_read_ids(data: Seq<u8>, off: int, ids: Seq<u32>)
    requires
        0 <= off,
        off + id_bytes(ids).len() <= data.len(),
        data.subrange(off, off + id_bytes(ids).len()) == id_bytes(ids),
    ensures
        read_ids(data, off, ids.len()) == Some(ids),
    decreases ids.len(),
{
    if ids.len() == 0 {
        assert(ids =~= Seq::<u32>::empty());
    } else {
        lemma_id_bytes_cons(ids);
        lemma_be32_roundtrip(ids[0]);
        let whole = id_bytes(ids);
        let rest = ids.drop_first();
        assert(data.subrange(off, off + 4) =~= be32(ids[0])) by {
            assert forall|j: int| 0 <= j < 4 implies data.subrange(off, off + 4)[j] == be32(ids[0])[j] by {
                assert(data.subrange(off, off + whole.len())[j] == whole[j]);
            }
        }
        lemma_read_be32_at(data, off, ids[0]);
        assert(data.subrange(off + 4, off + 4 + id_bytes(rest).len()) =~= id_bytes(rest)) by {
            assert forall|j: int| 0 <= j < id_bytes(rest).len() implies data.subrange(
                off + 4,
                off + 4 + id_bytes(rest).len(),
            )[j] == id_bytes(rest)[j] by {
                assert(data.subrange(off, off + whole.len())[4 + j] == whole[4 + j]);
            }
        }
        lemma_read_ids(data, off + 4, rest);
        assert(seq![ids[0]] + rest =~= ids);
    }
}

/// The added patterns of `s` read back from their records, fresh.
proof fn lemma_read_added(data: Seq<u8>, off: int, s: Seq<(u32, PatternView)>)
    requires
        0 <= off,
        off + export_entries(s).len() <= data.len(),
        data.subrange(off, off + export_entries(s).len()) == export_entries(s),
        forall|i: int| 0 <= i < s.len() ==> #[trigger] s[i].1.data.len() < 256,
    ensures
        read_added(data, off, s.len()) == Some(
            (s.map_values(|e: (u32, PatternView)| (e.0, fresh_pattern(e.1.data))), off + export_entries(s).len()),
        ),
    decreases s.len(),
{
    let fresh = s.map_values(|e: (u32, PatternView)| (e.0, fresh_pattern(e.1.data)));
    if s.len() == 0 {
        assert(fresh =~= Seq::empty());
    } else {
        lemma_export_entries_cons(s);
        let code = s[0].0;
        let d = s[0].1.data;
        let n = d.len() as int;
        assert(s[0].1.data.len() < 256);
        let rest = s.drop_first();
        let whole = export_entries(s);
        let e0 = export_entry(code, s[0].1);
        assert(e0.len() == 5 + n);
        assert forall|j: int| 0 <= j < whole.len() implies data[off + j] == #[trigger] whole[j] by {
            assert(data.subrange(off, off + whole.len())[j] == data[off + j]);
        }
        assert(whole[4] == (n % 256) as u8);
        assert(data.subrange(off, off + 4) =~= be32(code)) by {
            lemma_be32_roundtrip(code);
        }
        lemma_read_be32_at(data, off, code);
        assert(data[off + 4] == n);
        assert(data.subrange(off + 5, off + 5 + n) =~= d) by {
            assert forall|j: int| 0 <= j < n implies data.subrange(off + 5, off + 5 + n)[j] == d[j] by {
                assert(whole[5 + j] == d[j]);
            }
        }
        let off2 = off + 5 + n;
        assert(data.subrange(off2, off2 + export_entries(rest).len()) =~= export_entries(rest)) by {
            assert forall|j: int| 0 <= j < export_entries(rest).len() implies data.subrange(
                off2,
                off2 + export_entries(rest).len(),
            )[j] == export_entries(rest)[j] by {
                assert(whole[5 + n + j] == export_entries(rest)[j]);
            }
        }
        assert forall|i: int| 0 <= i < rest.len() implies #[trigger] rest[i].1.data.len() < 256 by {
            assert(s[i + 1].1.data.len() < 256);
        }
        lemma_read_added(data, off2, rest);
        assert(fresh =~= seq![(code, fresh_pattern(d))] + rest.map_values(
            |e: (u32, PatternView)| (e.0, fresh_pattern(e.1.data)),
        ));
    }
}

/// A diff read back from its wire form, when the wire form can carry it.
#[verifier::rlimit(50)]
proof fn lemma_diff_roundtrip(d: SyncDiffView)
    requires
        encodable(SyncMessageView::Diff(d)),
    ensures
        sync_parse(sync_bytes(SyncMessageView::Diff(d))) == Some(as_received(SyncMessageView::Diff(d))),
{
    let b = sync_bytes(SyncMessageView::Diff(d));
        let e = export_entries(d.added);
        let n = d.added.len();
        let rm = d.removed.len();
        lemma_be32_roundtrip(d.base_version);
        lemma_be32_roundtrip(d.new_version);
        lemma_be64_roundtrip(d.hash);
        lemma_be16_roundtrip(n as u16);
        lemma_be16_roundtrip(rm as u16);
        assert(b.subrange(1, 5) =~= be32(d.base_version));
        assert(b.subrange(5, 9) =~= be32(d.new_version));
        assert(b.subrange(9, 17) =~= be64(d.hash));
        assert(b.subrange(17, 19) =~= be16(n as u16));
        lemma_read_be32_at(b, 1, d.base_version);
        lemma_read_be32_at(b, 5, d.new_version);
        lemma_read_be64_at(b, 9, d.hash);
        lemma_read_be16_at(b, 17, n as u16);
        assert(b.subrange(19, 19 + e.len() as int) =~= e);
        lemma_read_added(b, 19, d.added);
        let off: int = 19 + e.len() as int;
        assert(b.subrange(off, off + 2) =~= be16(rm as u16));
        lemma_read_be16_at(b, off, rm as u16);
        let ib = id_bytes(d.removed);
        assert(b.subrange(off + 2, off + 2 + ib.len() as int) =~= ib);
        lemma_read_ids(b, off + 2, d.removed);
}

/// Reading a message back from its wire form gives the message as received
/// (the patterns of a diff fresh), whenever the wire form can carry it.
pub proof fn lemma_sync_roundtrip(m: SyncMessageView)
    requires
        encodable(m),
    ensures
        sync_parse(sync_bytes(m)) == Some(as_received(m)),
{
    match m {
        SyncMessageView::Announce(a) => lemma_announce_roundtrip(a),
        SyncMessageView::Request(r) => lemma_request_roundtrip(r),
        SyncMessageView::Diff(d) => lemma_diff_roundtrip(d),
        SyncMessageView::ReqDetail(sequence) => lemma_detail_request_roundtrip(sequence),
        SyncMessageView::ReqRange(r) => lemma_range_roundtrip(r),
        SyncMessageView::DetailResponse(dr) => lemma_detail_response_roundtrip(dr),
    }
}

proof fn lemma_announce_roundtrip(a: SyncAnnounce)
    ensures
        sync_parse(sync_bytes(SyncMessageView::Announce(a))) == Some(SyncMessageView::Announce(a)),
{
    let b = sync_bytes(SyncMessageView::Announce(a));
    lemma_be32_roundtrip(a.version);
    lemma_be64_roundtrip(a.hash);
    lemma_be16_roundtrip(a.pattern_count);
    assert(b.subrange(1, 5) =~= be32(a.version));
    assert(b.subrange(5, 13) =~= be64(a.hash));
    assert(b.subrange(13, 15) =~= be16(a.pattern_count));
    lemma_read_be32_at(b, 1, a.version);
    lemma_read_be64_at(b, 5, a.hash);
    lemma_read_be16_at(b, 13, a.pattern_count);
}

proof fn lemma_request_roundtrip(r: SyncRequest)
    ensures
        sync_parse(sync_bytes(SyncMessageView::Request(r))) == Some(SyncMessageView::Request(r)),
{
    let b = sync_bytes(SyncMessageView::Request(r));
    lemma_be32_roundtrip(r.from_version);
    assert(b.subrange(1, 5) =~= be32(r.from_version));
    lemma_read_be32_at(b, 1, r.from_version);
    match r.to_version {
        Some(t) => {
            lemma_be32_roundtrip(t);
            assert(b.subrange(6, 10) =~= be32(t));
            lemma_read_be32_at(b, 6, t);
        },
        None => {},
    }
}

proof fn lemma_detail_request_roundtrip(sequence: u32)
    ensures
        sync_parse(sync_bytes(SyncMessageView::ReqDetail(sequence))) == Some(SyncMessageView::ReqDetail(sequence)),
{
    let b = sync_bytes(SyncMessageView::ReqDetail(sequence));
    lemma_be32_roundtrip(sequence);
    assert(b.subrange(1, 5) =~= be32(sequence));
    lemma_read_be32_at(b, 1, sequence);
}

proof fn lemma_range_roundtrip(r: RangeRequest)
    ensures
        sync_parse(sync_bytes(SyncMessageView::ReqRange(r))) == Some(SyncMessageView::ReqRange(r)),
{
    let b = sync_bytes(SyncMessageView::ReqRange(r));
    lemma_be32_roundtrip(r.source_id);
    lemma_be64_roundtrip(r.from_timestamp);
    lemma_be64_roundtrip(r.to_timestamp);
    assert(b.subrange(1, 5) =~= be32(r.source_id));
    assert(b.subrange(5, 13) =~= be64(r.from_timestamp));
    assert(b.subrange(13, 21) =~= be64(r.to_timestamp));
    lemma_read_be32_at(b, 1, r.source_id);
    lemma_read_be64_at(b, 5, r.from_timestamp);
    lemma_read_be64_at(b, 13, r.to_timestamp);
}

proof fn lemma_detail_response_roundtrip(dr: DetailResponse)
    ensures
        sync_parse(sync_bytes(SyncMessageView::DetailResponse(dr))) == Some(SyncMessageView::DetailResponse(dr)),
{
    let b = sync_bytes(SyncMessageView::DetailResponse(dr));
    lemma_be32_roundtrip(dr.sequence);
    lemma_be64_roundtrip(dr.value_bits);
    lemma_be64_roundtrip(dr.timestamp);
    lemma_be32_roundtrip(dr.source_id);
    assert(b.subrange(1, 5) =~= be32(dr.sequence));
    assert(b.subrange(5, 13) =~= be64(dr.value_bits));
    assert(b.subrange(13, 21) =~= be64(dr.timestamp));
    assert(b.subrange(21, 25) =~= be32(dr.source_id));
    lemma_read_be32_at(b, 1, dr.sequence);
    lemma_read_be64_at(b, 5, dr.value_bits);
    lemma_read_be64_at(b, 13, dr.timestamp);
    lemma_read_be32_at(b, 21, dr.source_id);
}

/// Announcements come every `n`-th message: a synchronizer whose counter
/// stands at `k mod n` (as after `with_config` or `reset`, with `k == 0`)
/// announces at its next `should_announce` exactly when `k + 1` is a
/// multiple of `n`, and its counter then stands at `(k + 1) mod n`.
pub proof fn lemma_announce_every(n: u32, k: nat)
    requires
        n >= 1,
    ensures
        ((k % (n as nat)) + 1 >= n) == ((k + 1) % (n as nat) == 0),
        (if (k % (n as nat)) + 1 >= n {
            0
        } else {
            (k % (n as nat)) + 1
        }) == (k + 1) % (n as nat),
{
    let m = n as nat;
    let q = k / m;
    let r = k % m;
    assert(k == q * m + r && r < m) by (nonlinear_arith)
        requires
            m >= 1,
            q == k / m,
            r == k % m,
    ;
    if r + 1 >= m {
        assert(r + 1 == m);
        assert(k + 1 == (q + 1) * m) by (nonlinear_arith)
            requires
                k == q * m + r,
                r + 1 == m,
        ;
        assert((k + 1) % m == 0) by (nonlinear_arith)
            requires
                k + 1 == (q + 1) * m,
                m >= 1,
        ;
    } else {
        assert((k + 1) % m == r + 1) by (nonlinear_arith)
            requires
                k + 1 == q * m + (r + 1),
                r + 1 < m,
                m >= 1,
        ;
    }
}

/// A code is in `s.push(x)` exactly when it is in `s` or is `x`.
proof fn lemma_push_contains<A>(s: Seq<A>, x: A)
    ensures
        forall|c: A| #[trigger] s.push(x).contains(c) <==> (s.contains(c) || c == x),
{
    assert forall|c: A| #[trigger] s.push(x).contains(c) <==> (s.contains(c) || c == x) by {
        if s.push(x).contains(c) {
            let i = choose|i: int| 0 <= i < s.push(x).len() && s.push(x)[i] == c;
            if i < s.len() {
                assert(s[i] == c);
            }
        }
        if s.contains(c) {
            let i = choose|i: int| 0 <= i < s.len() && s[i] == c;
            assert(s.push(x)[i] == c);
        }
        if c == x {
            assert(s.push(x)[s.len() as int] == c);
        }
    }
}

/// A code is a key of `s` exactly when it is a key of all but its last
/// pair or the key of the last pair.
proof fn lemma_has_key_last<V>(s: Seq<(u32, V)>)
    requires
        s.len() > 0,
    ensures
        forall|c: u32| #[trigger] has_key(s, c) <==> (has_key(s.drop_last(), c) || c == s.last().0),
{
    let init = s.drop_last();
    assert forall|c: u32| #[trigger] has_key(s, c) <==> (has_key(init, c) || c == s.last().0) by {
        if has_key(s, c) {
            let i = choose|i: int| 0 <= i < s.len() && s[i].0 == c;
            if i < s.len() - 1 {
                assert(init[i].0 == c);
            }
        }
        if has_key(init, c) {
            let i = choose|i: int| 0 <= i < init.len() && init[i].0 == c;
            assert(s[i].0 == c);
        }
        if c == s.last().0 {
            assert(s[s.len() - 1].0 == c);
        }
    }
}

/// The codes that `removed_codes` lists are exactly the codes of `s` that
/// `new` lacks.
proof fn lemma_removed_codes_members(s: Seq<(u32, PatternView)>, new: Map<u32, PatternView>)
    ensures
        forall|c: u32| #[trigger]
            removed_codes(s, new).contains(c) <==> (has_key(s, c) && !new.contains_key(c)),
    decreases s.len(),
{
    if s.len() > 0 {
        let init = s.drop_last();
        lemma_removed_codes_members(init, new);
        lemma_has_key_last(s);
        lemma_push_contains(removed_codes(init, new), s.last().0);
    }
}

/// The entries `added_entries` keeps are entries of `s`, in order, and
/// they are exactly those whose code `old` lacks.
proof fn lemma_added_entries(s: Seq<(u32, PatternView)>, old: Map<u32, PatternView>)
    requires
        sorted_keys(s),
    ensures
        sorted_keys(added_entries(s, old)),
        forall|i: int|
            0 <= i < added_entries(s, old).len() ==> exists|j: int|
                0 <= j < s.len() && s[j] == #[trigger] added_entries(s, old)[i],
        forall|c: u32| #[trigger] has_key(added_entries(s, old), c) <==> (has_key(s, c) && !old.contains_key(c)),
    decreases s.len(),
{
    if s.len() > 0 {
        let init = s.drop_last();
        let a0 = added_entries(init, old);
        let a = added_entries(s, old);
        lemma_added_entries(init, old);
        assert forall|i: int| 0 <= i < a0.len() implies #[trigger] a0[i].0 < s.last().0 by {
            let j = choose|j: int| 0 <= j < init.len() && init[j] == a0[i];
            assert(s[j] == init[j]);
        }
        assert forall|i: int| 0 <= i < a.len() implies exists|j: int| 0 <= j < s.len() && s[j] == #[trigger] a[i] by {
            if i < a0.len() {
                assert(a[i] == a0[i]);
                let j = choose|j: int| 0 <= j < init.len() && init[j] == a0[i];
                assert(s[j] == init[j]);
            } else {
                assert(s[s.len() - 1] == a[i]);
            }
        }
        assert(sorted_keys(a)) by {
            assert forall|x: int, y: int| 0 <= x < y < a.len() implies a[x].0 < a[y].0 by {
                if y < a0.len() {
                    assert(a[x] == a0[x] && a[y] == a0[y]);
                } else {
                    assert(a[x] == a0[x]);
                }
            }
        }
        assert forall|c: u32| #[trigger] has_key(a, c) <==> (has_key(s, c) && !old.contains_key(c)) by {
            if has_key(s, c) {
                let i = choose|i: int| 0 <= i < s.len() && s[i].0 == c;
                if i < s.len() - 1 {
                    assert(init[i].0 == c);
                }
            }
            if has_key(init, c) {
                let i = choose|i: int| 0 <= i < init.len() && init[i].0 == c;
                assert(s[i].0 == c);
            }
            if has_key(a0, c) {
                let i = choose|i: int| 0 <= i < a0.len() && a0[i].0 == c;
                assert(a[i] == a0[i]);
            }
            if has_key(a, c) {
                let i = choose|i: int| 0 <= i < a.len() && a[i].0 == c;
                if i < a0.len() {
                    assert(a[i] == a0[i]);
                }
            }
            if !old.contains_key(s.last().0) {
                assert(a[a.len() - 1] == s.last());
            }
        }
    }
}

/// Removing the patterns of `ids` one after the other leaves exactly the
/// patterns whose code is not among them, unchanged.
proof fn lemma_without_patterns_dict(v: ContextView, ids: Seq<u32>)
    ensures
        forall|c: u32| #[trigger]
            without_patterns(v, ids).patterns.contains_key(c) <==> (v.patterns.contains_key(c) && !ids.contains(c)),
        forall|c: u32| #[trigger]
            without_patterns(v, ids).patterns.contains_key(c) ==> without_patterns(v, ids).patterns[c] == v.patterns[c],
    decreases ids.len(),
{
    if ids.len() > 0 {
        let init = ids.drop_last();
        lemma_without_patterns_dict(v, init);
        assert(ids == init.push(ids.last()));
        lemma_push_contains(init, ids.last());
        let w0 = without_patterns(v, init);
        assert(without_patterns(v, ids).patterns == w0.patterns.remove(ids.last()));
    }
}

/// Storing the entries of `added` (in increasing code order) one after the
/// other holds the patterns of `v` and those of `added`, an added entry
/// replacing the pattern of its code.
proof fn lemma_with_patterns_dict(v: ContextView, added: Seq<(u32, PatternView)>)
    requires
        sorted_keys(added),
    ensures
        forall|c: u32| #[trigger]
            with_patterns(v, added).patterns.contains_key(c) <==> (v.patterns.contains_key(c) || has_key(added, c)),
        forall|c: u32| #[trigger]
            has_key(added, c) ==> with_patterns(v, added).patterns[c] == added[key_index(added, c)].1,
        forall|c: u32|
            !has_key(added, c) && v.patterns.contains_key(c) ==> #[trigger] with_patterns(v, added).patterns[c]
                == v.patterns[c],
    decreases added.len(),
{
    if added.len() > 0 {
        let init = added.drop_last();
        let last = added.last();
        assert(sorted_keys(init));
        lemma_with_patterns_dict(v, init);
        lemma_has_key_last(added);
        lemma_key_index(added, added.len() - 1);
        let w0 = with_patterns(v, init);
        assert(with_patterns(v, added).patterns == w0.patterns.insert(last.0, last.1));
        assert forall|c: u32| #[trigger] has_key(init, c) implies c != last.0 && key_index(added, c) == key_index(
            init,
            c,
        ) by {
            let i = choose|i: int| 0 <= i < init.len() && init[i].0 == c;
            lemma_key_index(init, i);
            assert(added[i] == init[i]);
            lemma_key_index(added, i);
        }
    } else {
        assert forall|c: u32| !has_key(added, c) by {}
    }
}

/// What a diff carries: `generate_diff(old, new)` lists in `removed`
/// exactly the codes of `old`'s dictionary that `new`'s lacks, and
/// applying it to `old` gives a dictionary with exactly `new`'s codes,
/// holding `new`'s pattern under every code `old` lacked and `old`'s
/// under the others (so `new`'s dictionary itself when the shared codes
/// hold the same patterns).
pub proof fn lemma_diff_carries_changes(old_ctx: Context, new_ctx: Context)
    requires
        old_ctx.wf(),
        new_ctx.wf(),
    ensures
        forall|c: u32| #[trigger]
            removed_codes(old_ctx.pattern_seq(), new_ctx@.patterns).contains(c) <==> (old_ctx@.patterns.contains_key(
                c,
            ) && !new_ctx@.patterns.contains_key(c)),
        ({
            let d = SyncDiffView {
                base_version: old_ctx@.version,
                new_version: new_ctx@.version,
                added: added_entries(new_ctx.pattern_seq(), old_ctx@.patterns),
                removed: removed_codes(old_ctx.pattern_seq(), new_ctx@.patterns),
                hash: context_hash(new_ctx),
            };
            let a = applied(old_ctx@, d);
            &&& forall|c: u32| #[trigger] a.patterns.contains_key(c) <==> new_ctx@.patterns.contains_key(c)
            &&& forall|c: u32|
                new_ctx@.patterns.contains_key(c) && !old_ctx@.patterns.contains_key(c) ==> #[trigger] a.patterns[c]
                    == new_ctx@.patterns[c]
            &&& forall|c: u32|
                new_ctx@.patterns.contains_key(c) && old_ctx@.patterns.contains_key(c) ==> #[trigger] a.patterns[c]
                    == old_ctx@.patterns[c]
        }),
{
    old_ctx.lemma_ordered();
    new_ctx.lemma_ordered();
    let so = old_ctx.pattern_seq();
    let sn = new_ctx.pattern_seq();
    let removed = removed_codes(so, new_ctx@.patterns);
    let added = added_entries(sn, old_ctx@.patterns);
    lemma_removed_codes_members(so, new_ctx@.patterns);
    lemma_added_entries(sn, old_ctx@.patterns);
    let w = without_patterns(old_ctx@, removed);
    lemma_without_patterns_dict(old_ctx@, removed);
    lemma_with_patterns_dict(w, added);
    assert forall|c: u32| #[trigger] has_key(so, c) <==> old_ctx@.patterns.contains_key(c) by {
    }
    assert forall|c: u32| #[trigger] has_key(sn, c) <==> new_ctx@.patterns.contains_key(c) by {
    }
    let d = SyncDiffView {
        base_version: old_ctx@.version,
        new_version: new_ctx@.version,
        added,
        removed,
        hash: context_hash(new_ctx),
    };
    let a = applied(old_ctx@, d);
    assert(a.patterns == with_patterns(w, added).patterns);
    assert forall|c: u32| has_key(added, c) implies #[trigger] added[key_index(added, c)].1 == new_ctx@.patterns[c] by {
        let i = key_index(added, c);
        lemma_key_index(added, i);
        let j = choose|j: int| 0 <= j < sn.len() && sn[j] == #[trigger] added[i];
        lemma_key_index(sn, j);
    }
}

} // verus!
