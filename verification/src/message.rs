//! Wire-level build-log messages and the stream identity derived from them.
//!
//! Text is carried as raw bytes: every field below holds the exact bytes seen
//! on (or destined for) the wire, with no encoding applied or assumed.

use vstd::prelude::*;

verus! {

/// Identity of one logical log destination: the delivery routing key and the
/// attempt id named by the message body. Both are producer-supplied and
/// untrusted.
#[derive(Debug)]
pub struct LogFrom {
    pub routing_key: Vec<u8>,
    pub attempt_id: Vec<u8>,
}

#[verifier::ext_equal]
pub ghost struct LogFromV {
    pub routing_key: Seq<u8>,
    pub attempt_id: Seq<u8>,
}

impl View for LogFrom {
    type V = LogFromV;

    open spec fn view(&self) -> LogFromV {
        LogFromV { routing_key: self.routing_key@, attempt_id: self.attempt_id@ }
    }
}

impl Clone for LogFrom {
    fn clone(&self) -> (r: Self)
        ensures
            r@ == self@,
    {
        LogFrom { routing_key: clone_bytes(&self.routing_key), attempt_id: clone_bytes(&self.attempt_id) }
    }
}

/// Byte-exact copy of a byte vector.
pub fn clone_bytes(v: &Vec<u8>) -> (r: Vec<u8>)
    ensures
        r@ == v@,
{
    let mut out: Vec<u8> = Vec::new();
    out.extend_from_slice(v.as_slice());
    proof {
        assert(out@ =~= v@);
    }
    out
}

/// Start-of-build metadata event.
#[derive(Debug)]
pub struct BuildLogStart {
    pub attempt_id: Vec<u8>,
    pub identity: Vec<u8>,
    pub system: Vec<u8>,
    pub attempted_attrs: Option<Vec<Vec<u8>>>,
    pub skipped_attrs: Option<Vec<Vec<u8>>>,
}

#[verifier::ext_equal]
pub ghost struct BuildLogStartV {
    pub attempt_id: Seq<u8>,
    pub identity: Seq<u8>,
    pub system: Seq<u8>,
    pub attempted_attrs: Option<Seq<Seq<u8>>>,
    pub skipped_attrs: Option<Seq<Seq<u8>>>,
}

impl View for BuildLogStart {
    type V = BuildLogStartV;

    open spec fn view(&self) -> BuildLogStartV {
        BuildLogStartV {
            attempt_id: self.attempt_id@,
            identity: self.identity@,
            system: self.system@,
            attempted_attrs: self.attempted_attrs.deep_view(),
            skipped_attrs: self.skipped_attrs.deep_view(),
        }
    }
}

/// Incremental log-line event: one line of output addressed by a 1-based line
/// number.
#[derive(Debug)]
pub struct BuildLogMsg {
    pub attempt_id: Vec<u8>,
    pub identity: Vec<u8>,
    pub system: Vec<u8>,
    pub line_number: u64,
    pub output: Vec<u8>,
}

#[verifier::ext_equal]
pub ghost struct BuildLogMsgV {
    pub attempt_id: Seq<u8>,
    pub identity: Seq<u8>,
    pub system: Seq<u8>,
    pub line_number: u64,
    pub output: Seq<u8>,
}

impl View for BuildLogMsg {
    type V = BuildLogMsgV;

    open spec fn view(&self) -> BuildLogMsgV {
        BuildLogMsgV {
            attempt_id: self.attempt_id@,
            identity: self.identity@,
            system: self.system@,
            line_number: self.line_number,
            output: self.output@,
        }
    }
}

/// Terminal result event. Its payload is a reserved extension point and is
/// not persisted; only the attempt id is read from it.
#[derive(Debug)]
pub struct BuildResult {
    pub attempt_id: Vec<u8>,
}

impl View for BuildResult {
    type V = Seq<u8>;

    open spec fn view(&self) -> Seq<u8> {
        self.attempt_id@
    }
}

/// A classified message: the internal tagged representation of the untagged
/// wire payload.
#[derive(Debug)]
pub enum MsgType {
    Start(BuildLogStart),
    Msg(BuildLogMsg),
    Finish(BuildResult),
}

#[verifier::ext_equal]
pub ghost enum MsgTypeV {
    Start(BuildLogStartV),
    Msg(BuildLogMsgV),
    Finish(Seq<u8>),
}

impl View for MsgType {
    type V = MsgTypeV;

    open spec fn view(&self) -> MsgTypeV {
        match self {
            MsgType::Start(s) => MsgTypeV::Start(s@),
            MsgType::Msg(m) => MsgTypeV::Msg(m@),
            MsgType::Finish(f) => MsgTypeV::Finish(f@),
        }
    }
}

/// A classified message together with the stream identity it belongs to.
#[derive(Debug)]
pub struct LogMessage {
    pub from: LogFrom,
    pub message: MsgType,
}

#[verifier::ext_equal]
pub ghost struct LogMessageV {
    pub from: LogFromV,
    pub message: MsgTypeV,
}

impl View for LogMessage {
    type V = LogMessageV;

    open spec fn view(&self) -> LogMessageV {
        LogMessageV { from: self.from@, message: self.message@ }
    }
}

} // verus!
