//! The labels under which events are counted.
use crate::calls::CallErrorReason;
use crate::clients::DisconnectReason;
use crate::ids::PositionId;
use vstd::prelude::*;

verus! {

/// A value that is counted under a fixed label.
pub trait AsMetricLabel {
    fn as_metric_label(&self) -> &'static str;
}

/// How a call attempt ended.
#[derive(Debug, Clone, Copy, PartialEq, Eq, Structural)]
pub enum CallAttemptOutcome {
    Accepted,
    Rejected,
    Cancelled,
    Aborted,
    Error(CallErrorReason),
}

/// The label of a call attempt's outcome.
pub open spec fn call_outcome_label(outcome: CallAttemptOutcome) -> Seq<char> {
    match outcome {
        CallAttemptOutcome::Accepted => "accepted"@,
        CallAttemptOutcome::Rejected => "rejected"@,
        CallAttemptOutcome::Cancelled => "cancelled"@,
        CallAttemptOutcome::Aborted => "aborted"@,
        CallAttemptOutcome::Error(reason) => match reason {
            CallErrorReason::TargetNotFound => "error_target_not_found"@,
            CallErrorReason::CallActive => "error_call_active"@,
            CallErrorReason::WebrtcFailure => "error_webrtc_failure"@,
            CallErrorReason::AudioFailure => "error_audio_failure"@,
            CallErrorReason::CallFailure => "error_call_failure"@,
            CallErrorReason::SignalingFailure => "error_signaling_failure"@,
            CallErrorReason::AutoHangup => "error_auto_hangup"@,
            CallErrorReason::Other => "error_other"@,
        },
    }
}

impl AsMetricLabel for CallAttemptOutcome {
    fn as_metric_label(&self) -> (r: &'static str)
        ensures
            r@ == call_outcome_label(*self),
    {
        match self {
            CallAttemptOutcome::Accepted => "accepted",
            CallAttemptOutcome::Rejected => "rejected",
            CallAttemptOutcome::Cancelled => "cancelled",
            CallAttemptOutcome::Aborted => "aborted",
            CallAttemptOutcome::Error(reason) => match reason {
                CallErrorReason::TargetNotFound => "error_target_not_found",
                CallErrorReason::CallActive => "error_call_active",
                CallErrorReason::WebrtcFailure => "error_webrtc_failure",
                CallErrorReason::AudioFailure => "error_audio_failure",
                CallErrorReason::CallFailure => "error_call_failure",
                CallErrorReason::SignalingFailure => "error_signaling_failure",
                CallErrorReason::AutoHangup => "error_auto_hangup",
                CallErrorReason::Other => "error_other",
            },
        }
    }
}

impl AsMetricLabel for Option<CallAttemptOutcome> {
    fn as_metric_label(&self) -> (r: &'static str)
        ensures
            r@ == match *self {
                Some(outcome) => call_outcome_label(outcome),
                None => "aborted"@,
            },
    {
        match self {
            Some(outcome) => outcome.as_metric_label(),
            None => "aborted",
        }
    }
}

/// The label of a disconnect reason.
pub open spec fn disconnect_label(reason: DisconnectReason) -> Seq<char> {
    match reason {
        DisconnectReason::Terminated => "terminated"@,
        DisconnectReason::NoActiveVatsimConnection => "no_active_vatsim_connection"@,
        DisconnectReason::AmbiguousVatsimPosition(_) => "ambiguous_vatsim_position"@,
    }
}

impl AsMetricLabel for DisconnectReason {
    fn as_metric_label(&self) -> (r: &'static str)
        ensures
            r@ == disconnect_label(*self),
    {
        match self {
            DisconnectReason::Terminated => "terminated",
            DisconnectReason::NoActiveVatsimConnection => "no_active_vatsim_connection",
            DisconnectReason::AmbiguousVatsimPosition(_) => "ambiguous_vatsim_position",
        }
    }
}

impl AsMetricLabel for Option<DisconnectReason> {
    /// A disconnect without a reason is a graceful one.
    fn as_metric_label(&self) -> (r: &'static str)
        ensures
            r@ == match *self {
                Some(reason) => disconnect_label(reason),
                None => "graceful"@,
            },
    {
        match self {
            Some(reason) => reason.as_metric_label(),
            None => "graceful",
        }
    }
}

/// Why a login was refused.
#[derive(Debug)]
pub enum LoginFailureReason {
    Unauthorized,
    DuplicateId,
    InvalidCredentials,
    NoActiveVatsimConnection,
    AmbiguousVatsimPosition(Vec<PositionId>),
    InvalidVatsimPosition,
    Timeout,
    IncompatibleProtocolVersion,
}

/// The label of a login failure.
pub open spec fn login_failure_label(reason: LoginFailureReason) -> Seq<char> {
    match reason {
        LoginFailureReason::Unauthorized => "unauthorized"@,
        LoginFailureReason::DuplicateId => "duplicate_id"@,
        LoginFailureReason::InvalidCredentials => "invalid_credentials"@,
        LoginFailureReason::NoActiveVatsimConnection => "no_active_vatsim_connection"@,
        LoginFailureReason::AmbiguousVatsimPosition(_) => "ambiguous_vatsim_position"@,
        LoginFailureReason::InvalidVatsimPosition => "invalid_vatsim_position"@,
        LoginFailureReason::Timeout => "timeout"@,
        LoginFailureReason::IncompatibleProtocolVersion => "incompatible_protocol_version"@,
    }
}

impl AsMetricLabel for LoginFailureReason {
    fn as_metric_label(&self) -> (r: &'static str)
        ensures
            r@ == login_failure_label(*self),
    {
        match self {
            LoginFailureReason::Unauthorized => "unauthorized",
            LoginFailureReason::DuplicateId => "duplicate_id",
            LoginFailureReason::InvalidCredentials => "invalid_credentials",
            LoginFailureReason::NoActiveVatsimConnection => "no_active_vatsim_connection",
            LoginFailureReason::AmbiguousVatsimPosition(_) => "ambiguous_vatsim_position",
            LoginFailureReason::InvalidVatsimPosition => "invalid_vatsim_position",
            LoginFailureReason::Timeout => "timeout",
            LoginFailureReason::IncompatibleProtocolVersion => "incompatible_protocol_version",
        }
    }
}

/// The status label of a login attempt.
pub fn login_attempt_label(success: bool) -> (r: &'static str)
    ensures
        r@ == (if success {
            "success"@
        } else {
            "failure"@
        }),
{
    if success {
        "success"
    } else {
        "failure"
    }
}

} // verus!
