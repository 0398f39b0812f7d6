//! The result projector: engine outcomes mapped onto a stable,
//! introspectable result value with a small closed reason vocabulary.
use vstd::prelude::*;

use crate::engine::ReasonKind;
use crate::journal::{Log, LogModel};

verus! {

/// The stable result of one transaction execution.
#[derive(Debug)]
pub struct ExecutionResult {
    pub is_success: bool,
    pub is_halt: bool,
    pub reason: String,
    pub gas_used: u64,
    pub gas_refunded: u64,
    pub logs: Vec<Log>,
}

/// The mathematical shape of a projected result.
pub struct ResultModel {
    pub is_success: bool,
    pub is_halt: bool,
    pub reason: Seq<char>,
    pub gas_used: u64,
    pub gas_refunded: u64,
    pub logs: Seq<LogModel>,
}

impl View for ExecutionResult {
    type V = ResultModel;

    open spec fn view(&self) -> ResultModel {
        ResultModel {
            is_success: self.is_success,
            is_halt: self.is_halt,
            reason: self.reason@,
            gas_used: self.gas_used,
            gas_refunded: self.gas_refunded,
            logs: self.logs@.map_values(|l: Log| l@),
        }
    }
}

/// The projection of an outcome: success keeps its refund and its logs;
/// a revert or halt reports zero refund and no logs.
pub open spec fn projected(kind: ReasonKind, gas_used: u64, gas_refunded: u64, logs: Seq<LogModel>) -> ResultModel {
    ResultModel {
        is_success: reason_is_success(kind),
        is_halt: reason_is_halt(kind),
        reason: reason_label(kind),
        gas_used,
        gas_refunded: if reason_is_success(kind) {
            gas_refunded
        } else {
            0u64
        },
        logs: if reason_is_success(kind) {
            logs
        } else {
            Seq::empty()
        },
    }
}

/// Whether a reason tag denotes a successful completion.
pub open spec fn reason_is_success(k: ReasonKind) -> bool {
    k == ReasonKind::Stop || k == ReasonKind::Return || k == ReasonKind::SelfDestruct
}

/// Whether a reason tag denotes a halt (neither success nor an explicit
/// revert).
pub open spec fn reason_is_halt(k: ReasonKind) -> bool {
    !reason_is_success(k) && k != ReasonKind::Revert
}

/// The stable name of each reason tag.
pub open spec fn reason_label(k: ReasonKind) -> Seq<char> {
    match k {
        ReasonKind::Stop => "Stop"@,
        ReasonKind::Return => "Return"@,
        ReasonKind::SelfDestruct => "SelfDestruct"@,
        ReasonKind::Revert => "Revert"@,
        ReasonKind::OutOfGas => "OutOfGas"@,
        ReasonKind::InvalidJump => "InvalidJump"@,
        ReasonKind::StackOverflow => "StackOverflow"@,
        ReasonKind::StackUnderflow => "StackUnderflow"@,
        ReasonKind::OpcodeNotFound => "OpcodeNotFound"@,
        ReasonKind::CreateCollision => "CreateCollision"@,
        ReasonKind::CallTooDeep => "CallTooDeep"@,
        ReasonKind::StaticViolation => "StaticViolation"@,
        ReasonKind::Unknown => "Unknown"@,
    }
}

/// The stable name of a reason tag, as an owned string.
pub fn reason_name(k: ReasonKind) -> (r: String)
    ensures
        r@ == reason_label(k),
{
    match k {
        ReasonKind::Stop => String::from_str("Stop"),
        ReasonKind::Return => String::from_str("Return"),
        ReasonKind::SelfDestruct => String::from_str("SelfDestruct"),
        ReasonKind::Revert => String::from_str("Revert"),
        ReasonKind::OutOfGas => String::from_str("OutOfGas"),
        ReasonKind::InvalidJump => String::from_str("InvalidJump"),
        ReasonKind::StackOverflow => String::from_str("StackOverflow"),
        ReasonKind::StackUnderflow => String::from_str("StackUnderflow"),
        ReasonKind::OpcodeNotFound => String::from_str("OpcodeNotFound"),
        ReasonKind::CreateCollision => String::from_str("CreateCollision"),
        ReasonKind::CallTooDeep => String::from_str("CallTooDeep"),
        ReasonKind::StaticViolation => String::from_str("StaticViolation"),
        ReasonKind::Unknown => String::from_str("Unknown"),
    }
}

impl ExecutionResult {
    /// An owned copy with the same content.
    pub fn duplicate(&self) -> (r: Self)
        ensures
            r.is_success == self.is_success,
            r.is_halt == self.is_halt,
            r.reason@ == self.reason@,
            r.gas_used == self.gas_used,
            r.gas_refunded == self.gas_refunded,
            r.logs@.len() == self.logs@.len(),
            forall|i: int| 0 <= i < r.logs@.len() ==> #[trigger] r.logs@[i]@ == self.logs@[i]@,
    {
        let mut logs: Vec<Log> = Vec::new();
        let n = self.logs.len();
        let mut i: usize = 0;
        while i < n
            invariant
                n == self.logs@.len(),
                i <= n,
                logs@.len() == i,
                forall|j: int| 0 <= j < i ==> #[trigger] logs@[j]@ == self.logs@[j]@,
            decreases n - i,
        {
            logs.push(self.logs[i].duplicate());
            i += 1;
        }
        ExecutionResult {
            is_success: self.is_success,
            is_halt: self.is_halt,
            reason: self.reason.clone(),
            gas_used: self.gas_used,
            gas_refunded: self.gas_refunded,
            logs,
        }
    }
}

/// Projects an engine outcome onto the stable result value. Total: every
/// reason tag, known or not, yields a result. Only a success carries its
/// refund and its logs; a revert or halt reports neither.
pub fn project_outcome(kind: ReasonKind, gas_used: u64, gas_refunded: u64, logs: Vec<Log>) -> (r:
    ExecutionResult)
    ensures
        r@ == projected(kind, gas_used, gas_refunded, logs@.map_values(|l: Log| l@)),
        reason_is_success(kind) ==> r.logs == logs,
{
    let is_success = match kind {
        ReasonKind::Stop | ReasonKind::Return | ReasonKind::SelfDestruct => true,
        _ => false,
    };
    let is_halt = !is_success && !(matches!(kind, ReasonKind::Revert));
    let kept: Vec<Log> = if is_success {
        logs
    } else {
        Vec::new()
    };
    let r = ExecutionResult {
        is_success,
        is_halt,
        reason: reason_name(kind),
        gas_used,
        gas_refunded: if is_success {
            gas_refunded
        } else {
            0
        },
        logs: kept,
    };
    proof {
        assert(r@.logs =~= projected(
            kind,
            gas_used,
            gas_refunded,
            logs@.map_values(|l: Log| l@),
        ).logs);
        assert(r@ =~= projected(kind, gas_used, gas_refunded, logs@.map_values(|l: Log| l@)));
    }
    r
}

} // verus!
