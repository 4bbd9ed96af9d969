//! The collector: stream identities mapped to root-confined paths and bounded
//! writer state.
//!
//! The collector owns the configured log root and the LRU pool of writer
//! states. It decides everything that does not require touching the
//! filesystem: which path a stream resolves to, which resource must be opened
//! or released, and which bytes must be appended. The embedding program
//! carries those decisions out.

use vstd::prelude::*;

use crate::cache::HandleCache;
use crate::cache::CacheModel;
use crate::cache::has_key;
use crate::cache::index_of_key;
use crate::cache::lemma_index_of_key;
use crate::cache::distinct_keys;
use crate::message::BuildLogStart;
use crate::message::LogFrom;
use crate::message::LogMessage;
use crate::message::MsgType;
use crate::message::MsgTypeV;
use crate::wire::classify;
use crate::wire::classify_message;
use crate::paths::PathError;
use crate::paths::build_log_path;
use crate::paths::build_metadata_path;
use crate::paths::lemma_metadata_path_within_root;
use crate::paths::spec_path_for_log;
use crate::paths::spec_path_for_metadata;
use crate::paths::spec_path_prefix;
use crate::metadata::encode_start;
use crate::metadata::spec_encode_start;
use crate::writer::LineWriter;
use crate::writer::spec_advance;
use crate::writer::spec_chunk;

verus! {

/// The payload matched none of the known shapes; nothing was done.
#[derive(Debug, Clone, Copy, PartialEq, Eq, Structural)]
pub struct DecodeError;

/// The acknowledgement actions a worker returns to the queue; exactly one
/// positive acknowledgement per successfully dispatched message.
#[derive(Debug, Clone, Copy, PartialEq, Eq, Structural)]
pub enum Action {
    Ack,
}

/// A planned sidecar write: append `bytes` to the resource at `path`.
pub struct MetadataWrite {
    pub path: Vec<u8>,
    pub bytes: Vec<u8>,
}

/// What dispatching one classified message asks of the embedding program.
pub enum Dispatch {
    /// A start event: append the document bytes to the sidecar path.
    Metadata(MetadataWrite),
    /// A chunk event: make the stream's resource available as instructed,
    /// then ask `write_line` for the bytes to append.
    Chunk(HandleFor),
    /// A finish event: a deliberate no-op, still acknowledged.
    Nothing,
}

/// What a chunk dispatch asks of the resource owner.
pub enum HandleFor {
    /// The stream's resource is already open; its entry is now most recent.
    Existing,
    /// A fresh entry was made for the stream: open (create if missing) the
    /// resource at `path`, and first release the resource of the `evicted`
    /// stream, if any.
    Opened { path: Vec<u8>, evicted: Option<LogFrom> },
}

/// What a successful `handle_for` outcome guarantees, relating the pool
/// before (`pre`) and after (`post`) the call for stream `from`.
pub open spec fn handle_outcome(
    pre: CacheModel,
    cap: int,
    root: Seq<u8>,
    from: crate::message::LogFromV,
    post: CacheModel,
    h: &HandleFor,
) -> bool {
    match h {
        HandleFor::Existing => has_key(pre, from) && post =~= pre.remove(
            index_of_key(pre, from),
        ).push(pre[index_of_key(pre, from)]),
        HandleFor::Opened { path, evicted } => {
            &&& !has_key(pre, from)
            &&& spec_path_for_log(root, from.routing_key, from.attempt_id) == Ok::<_, PathError>(
                path@,
            )
            &&& (pre.len() < cap ==> post =~= pre.push((from, 0u64)) && evicted is None)
            &&& (pre.len() == cap ==> post =~= pre.push((from, 0u64)).remove(0) && (
            evicted matches Some(k) && k@ == pre[0].0))
        },
    }
}

/// Assembles log streams: resolves root-confined locations and hands out
/// append chunks, holding at most a fixed number of writer states at once.
pub struct LogMessageCollector {
    handles: HandleCache,
    log_root: Vec<u8>,
}

impl LogMessageCollector {
    /// The configured root all resolved paths stay inside.
    pub closed spec fn root(&self) -> Seq<u8> {
        self.log_root@
    }

    /// The pool contents: key and cursor per entry, least recently used
    /// first.
    pub closed spec fn handles(&self) -> CacheModel {
        self.handles@
    }

    /// The bound on simultaneously held writer states (and so on
    /// simultaneously open resources).
    pub closed spec fn capacity(&self) -> int {
        self.handles.capacity()
    }

    /// The pool is within its bound and holds each stream at most once.
    pub closed spec fn wf(&self) -> bool {
        self.handles.wf()
    }

    /// Law: a well-formed collector never tracks more than `capacity` open
    /// resources, and never tracks a stream twice.
    pub proof fn lemma_bounded(&self)
        requires
            self.wf(),
        ensures
            self.handles().len() <= self.capacity(),
            self.capacity() >= 1,
            distinct_keys(self.handles()),
    {
    }

    /// A collector writing below `log_root`, holding at most `max_open`
    /// resources open at once.
    pub fn new(log_root: Vec<u8>, max_open: usize) -> (c: LogMessageCollector)
        requires
            max_open >= 1,
        ensures
            c.wf(),
            c.root() == log_root@,
            c.handles() =~= Seq::<(crate::message::LogFromV, u64)>::empty(),
            c.capacity() == max_open,
    {
        LogMessageCollector { handles: HandleCache::new(max_open), log_root }
    }

    /// Resolves the log-content path for a stream; fails closed on any
    /// malformed segment, before any filesystem access could happen.
    pub fn path_for_log(&self, from: &LogFrom) -> (r: Result<Vec<u8>, PathError>)
        ensures
            match r {
                Ok(p) => spec_path_for_log(self.root(), from@.routing_key, from@.attempt_id)
                    == Ok::<_, PathError>(p@) && spec_path_prefix(self.root(), p@),
                Err(e) => spec_path_for_log(self.root(), from@.routing_key, from@.attempt_id)
                    == Err::<Seq<u8>, _>(e),
            },
    {
        build_log_path(
            self.log_root.as_slice(),
            from.routing_key.as_slice(),
            from.attempt_id.as_slice(),
        )
    }

    /// Resolves the metadata sidecar path for a stream: the log path with its
    /// extension replaced by the sidecar suffix.
    pub fn path_for_metadata(&self, from: &LogFrom) -> (r: Result<Vec<u8>, PathError>)
        ensures
            match r {
                Ok(p) => spec_path_for_metadata(self.root(), from@.routing_key, from@.attempt_id)
                    == Ok::<_, PathError>(p@) && spec_path_prefix(self.root(), p@),
                Err(e) => spec_path_for_metadata(self.root(), from@.routing_key, from@.attempt_id)
                    == Err::<Seq<u8>, _>(e),
            },
    {
        match self.path_for_log(from) {
            Ok(p) => {
                proof {
                    lemma_metadata_path_within_root(
                        self.root(),
                        from@.routing_key,
                        from@.attempt_id,
                    );
                }
                Ok(build_metadata_path(p.as_slice()))
            },
            Err(e) => Err(e),
        }
    }

    /// Plans the sidecar write for one start event: where to append, and the
    /// exact document bytes. Fails closed on a malformed segment; encoding
    /// itself cannot fail. Repeated start events for one key concatenate
    /// documents, because the caller appends.
    pub fn write_metadata(&self, from: &LogFrom, data: &BuildLogStart) -> (r: Result<
        MetadataWrite,
        PathError,
    >)
        ensures
            match r {
                Ok(w) => spec_path_for_metadata(self.root(), from@.routing_key, from@.attempt_id)
                    == Ok::<_, PathError>(w.path@) && spec_path_prefix(self.root(), w.path@)
                    && w.bytes@ == spec_encode_start(data@),
                Err(e) => spec_path_for_metadata(self.root(), from@.routing_key, from@.attempt_id)
                    == Err::<Seq<u8>, _>(e),
            },
    {
        match self.path_for_metadata(from) {
            Ok(path) => Ok(MetadataWrite { path, bytes: encode_start(data) }),
            Err(e) => Err(e),
        }
    }

    /// Finds or creates the writer state for a stream and makes it the most
    /// recent entry. Creating resolves the path first (fail closed) and may
    /// evict the least recently used stream, whose key is handed back for the
    /// caller to release; a fresh entry starts with cursor 0 until
    /// `set_cursor` reports what the reopened resource already holds.
    pub fn handle_for(&mut self, from: &LogFrom) -> (r: Result<HandleFor, PathError>)
        requires
            old(self).wf(),
        ensures
            final(self).wf(),
            final(self).root() == old(self).root(),
            final(self).capacity() == old(self).capacity(),
            match r {
                Ok(HandleFor::Existing) => {
                    &&& has_key(old(self).handles(), from@)
                    &&& final(self).handles() =~= old(self).handles().remove(
                        index_of_key(old(self).handles(), from@),
                    ).push(old(self).handles()[index_of_key(old(self).handles(), from@)])
                },
                Ok(HandleFor::Opened { path, evicted }) => {
                    &&& !has_key(old(self).handles(), from@)
                    &&& spec_path_for_log(old(self).root(), from@.routing_key, from@.attempt_id)
                        == Ok::<_, PathError>(path@)
                    &&& old(self).handles().len() < old(self).capacity() ==> {
                        &&& final(self).handles() =~= old(self).handles().push((from@, 0u64))
                        &&& evicted is None
                    }
                    &&& old(self).handles().len() == old(self).capacity() ==> {
                        &&& final(self).handles() =~= old(self).handles().push(
                            (from@, 0u64),
                        ).remove(0)
                        &&& evicted matches Some(k) && k@ == old(self).handles()[0].0
                    }
                },
                Err(e) => {
                    &&& final(self).handles() == old(self).handles()
                    &&& spec_path_for_log(old(self).root(), from@.routing_key, from@.attempt_id)
                        == Err::<Seq<u8>, _>(e)
                },
            },
            r is Ok ==> has_key(final(self).handles(), from@) && final(self).handles().last().0
                == from@,
    {
        match self.handles.position(from) {
            Some(i) => {
                proof {
                    lemma_index_of_key(self.handles@, from@, i as int);
                }
                self.handles.promote(i);
                proof {
                    let m = self.handles@;
                    assert(m.last().0 == from@);
                    assert(m[m.len() - 1].0 == from@);
                }
                Ok(HandleFor::Existing)
            },
            None => {
                let path = match build_log_path(
                    self.log_root.as_slice(),
                    from.routing_key.as_slice(),
                    from.attempt_id.as_slice(),
                ) {
                    Ok(p) => p,
                    Err(e) => {
                        return Err(e);
                    },
                };
                let evicted = self.handles.insert_new(from.clone(), LineWriter::new(0));
                proof {
                    let m = self.handles@;
                    if old(self).handles().len() < old(self).capacity() {
                        assert(m.last().0 == from@);
                    } else {
                        assert(m =~= old(self).handles().push((from@, 0u64)).remove(0));
                        assert(m.last() == old(self).handles().push((from@, 0u64))[old(
                            self,
                        ).handles().len() as int]);
                        assert(m.last().0 == from@);
                    }
                    assert(m[m.len() - 1].0 == from@);
                }
                Ok(HandleFor::Opened { path, evicted })
            },
        }
    }

    /// Reports how many lines the just-opened resource of a stream already
    /// holds; returns false (and changes nothing) when the stream is not
    /// tracked.
    pub fn set_cursor(&mut self, from: &LogFrom, lines: u64) -> (found: bool)
        requires
            old(self).wf(),
        ensures
            final(self).wf(),
            final(self).root() == old(self).root(),
            final(self).capacity() == old(self).capacity(),
            found <==> has_key(old(self).handles(), from@),
            found ==> final(self).handles() =~= old(self).handles().update(
                index_of_key(old(self).handles(), from@),
                (from@, lines),
            ),
            !found ==> final(self).handles() == old(self).handles(),
    {
        match self.handles.position(from) {
            Some(i) => {
                proof {
                    lemma_index_of_key(self.handles@, from@, i as int);
                }
                self.handles.set_cursor(i, lines);
                true
            },
            None => false,
        }
    }

    /// Produces the bytes to append for one line event of a tracked stream
    /// (padding, text, terminator) and advances that stream's cursor; returns
    /// nothing (and changes nothing) when the stream is not tracked.
    pub fn write_line(&mut self, from: &LogFrom, line_number: u64, output: &[u8]) -> (r: Option<
        Vec<u8>,
    >)
        requires
            old(self).wf(),
            line_number >= 1,
        ensures
            final(self).wf(),
            final(self).root() == old(self).root(),
            final(self).capacity() == old(self).capacity(),
            match r {
                Some(chunk) => {
                    &&& has_key(old(self).handles(), from@)
                    &&& chunk@ == spec_chunk(
                        old(self).handles()[index_of_key(old(self).handles(), from@)].1 as int,
                        line_number as int,
                        output@,
                    )
                    &&& final(self).handles() =~= old(self).handles().remove(
                        index_of_key(old(self).handles(), from@),
                    ).push(
                        (
                            from@,
                            spec_advance(
                                old(self).handles()[index_of_key(old(self).handles(), from@)].1,
                                line_number,
                            ),
                        ),
                    )
                },
                None => {
                    &&& !has_key(old(self).handles(), from@)
                    &&& final(self).handles() == old(self).handles()
                },
            },
    {
        match self.handles.position(from) {
            Some(i) => {
                proof {
                    lemma_index_of_key(self.handles@, from@, i as int);
                }
                Some(self.handles.write_line(i, line_number, output))
            },
            None => None,
        }
    }

    /// Classifies one raw delivery into a job: decodes the payload against
    /// the known shapes in fixed order (chunk, start, finish) and derives the
    /// stream identity from the routing key and the decoded attempt id. Fails
    /// exactly when the payload matches no shape; no side effects either way.
    pub fn msg_to_job(routing_key: &[u8], body: &[u8]) -> (r: Result<LogMessage, DecodeError>)
        ensures
            match r {
                Ok(m) => classify(routing_key@, body@) == Some(m@),
                Err(_) => classify(routing_key@, body@) is None,
            },
    {
        match classify_message(routing_key, body) {
            Some(m) => Ok(m),
            None => Err(DecodeError),
        }
    }

    /// Dispatches one classified message: a start event becomes a planned
    /// sidecar write, a chunk event readies the stream's writer state, a
    /// finish event is a deliberate no-op. Every successful dispatch yields
    /// exactly one acknowledgement; any failure is fatal for this message
    /// and yields none.
    pub fn consumer(&mut self, job: &LogMessage) -> (r: Result<(Dispatch, Vec<Action>), PathError>)
        requires
            old(self).wf(),
        ensures
            final(self).wf(),
            final(self).root() == old(self).root(),
            final(self).capacity() == old(self).capacity(),
            match r {
                Ok((d, actions)) => {
                    &&& actions@ == seq![Action::Ack]
                    &&& match job.message@ {
                        MsgTypeV::Start(sv) => {
                            &&& d matches Dispatch::Metadata(w) && spec_path_for_metadata(
                                old(self).root(),
                                job.from@.routing_key,
                                job.from@.attempt_id,
                            ) == Ok::<_, PathError>(w.path@) && w.bytes@ == spec_encode_start(sv)
                            &&& final(self).handles() == old(self).handles()
                        },
                        MsgTypeV::Msg(mv) => {
                            d matches Dispatch::Chunk(h) && handle_outcome(
                                old(self).handles(),
                                old(self).capacity(),
                                old(self).root(),
                                job.from@,
                                final(self).handles(),
                                &h,
                            )
                        },
                        MsgTypeV::Finish(fv) => d is Nothing && final(self).handles() == old(
                            self,
                        ).handles(),
                    }
                },
                Err(e) => {
                    &&& final(self).handles() == old(self).handles()
                    &&& match job.message@ {
                        MsgTypeV::Start(sv) => spec_path_for_metadata(
                            old(self).root(),
                            job.from@.routing_key,
                            job.from@.attempt_id,
                        ) == Err::<Seq<u8>, _>(e),
                        MsgTypeV::Msg(mv) => spec_path_for_log(
                            old(self).root(),
                            job.from@.routing_key,
                            job.from@.attempt_id,
                        ) == Err::<Seq<u8>, _>(e),
                        MsgTypeV::Finish(fv) => false,
                    }
                },
            },
    {
        let d = match &job.message {
            MsgType::Start(start) => {
                match self.write_metadata(&job.from, start) {
                    Ok(w) => Dispatch::Metadata(w),
                    Err(e) => {
                        return Err(e);
                    },
                }
            },
            MsgType::Msg(_) => {
                match self.handle_for(&job.from) {
                    Ok(h) => Dispatch::Chunk(h),
                    Err(e) => {
                        return Err(e);
                    },
                }
            },
            MsgType::Finish(_) => Dispatch::Nothing,
        };
        let mut actions: Vec<Action> = Vec::new();
        actions.push(Action::Ack);
        proof {
            assert(actions@ =~= seq![Action::Ack]);
        }
        Ok((d, actions))
    }
}

} // verus!
