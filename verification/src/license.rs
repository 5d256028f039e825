use vstd::prelude::*;

use crate::data::{
    as_bytes, as_u32, as_u8, field, field_with_rule, lemma_view_fields_from, spec_get,
    spec_read_component, Component, Field, FieldValue, LenRule, SpecComponent, SpecField,
    SpecFieldValue,
};
use crate::error::{RdpError, RdpErrorKind, RdpResult};

verus! {

// ---------------------------------------------------------------------------
// Licensing: the client accepts a new license or the "valid client, no
// transition" alert, and rejects every other license exchange.
// ---------------------------------------------------------------------------

/// A license message the client accepts work from.
pub enum LicenseMessage {
    NewLicense,
    ErrorAlert(Component),
}

/// The message types that may follow a license preamble.
#[derive(Clone, Copy, Debug, PartialEq, Eq, Structural)]
pub enum MessageType {
    LicenseRequest,
    PlatformChallenge,
    NewLicense,
    UpgradeLicense,
    LicenseInfo,
    NewLicenseRequest,
    PlatformChallengeResponse,
    ErrorAlert,
}

/// What a license message type code maps to, where it is known.
pub open spec fn message_type_from(e: u8) -> Option<MessageType> {
    if e == 0x01 {
        Option::Some(MessageType::LicenseRequest)
    } else if e == 0x02 {
        Option::Some(MessageType::PlatformChallenge)
    } else if e == 0x03 {
        Option::Some(MessageType::NewLicense)
    } else if e == 0x04 {
        Option::Some(MessageType::UpgradeLicense)
    } else if e == 0x12 {
        Option::Some(MessageType::LicenseInfo)
    } else if e == 0x13 {
        Option::Some(MessageType::NewLicenseRequest)
    } else if e == 0x15 {
        Option::Some(MessageType::PlatformChallengeResponse)
    } else if e == 0xff {
        Option::Some(MessageType::ErrorAlert)
    } else {
        Option::None
    }
}

impl MessageType {
    /// Maps a wire code to its message type, where one is defined.
    pub fn from_code(e: u8) -> (r: Option<MessageType>)
        ensures
            r == message_type_from(e),
    {
        if e == 0x01 {
            Option::Some(MessageType::LicenseRequest)
        } else if e == 0x02 {
            Option::Some(MessageType::PlatformChallenge)
        } else if e == 0x03 {
            Option::Some(MessageType::NewLicense)
        } else if e == 0x04 {
            Option::Some(MessageType::UpgradeLicense)
        } else if e == 0x12 {
            Option::Some(MessageType::LicenseInfo)
        } else if e == 0x13 {
            Option::Some(MessageType::NewLicenseRequest)
        } else if e == 0x15 {
            Option::Some(MessageType::PlatformChallengeResponse)
        } else if e == 0xff {
            Option::Some(MessageType::ErrorAlert)
        } else {
            Option::None
        }
    }
}

/// The error codes of the licensing automaton.
#[derive(Clone, Copy, Debug, PartialEq, Eq, Structural)]
pub enum ErrorCode {
    ErrInvalidServerCertificate,
    ErrNoLicense,
    ErrInvalidScope,
    ErrNoLicenseServer,
    StatusValidClient,
    ErrInvalidClient,
    ErrInvalidProductid,
    ErrInvalidMessageLen,
    ErrInvalidMac,
}

/// What a licensing error code maps to, where it is known.
pub open spec fn error_code_from(e: u32) -> Option<ErrorCode> {
    if e == 1 {
        Option::Some(ErrorCode::ErrInvalidServerCertificate)
    } else if e == 2 {
        Option::Some(ErrorCode::ErrNoLicense)
    } else if e == 4 {
        Option::Some(ErrorCode::ErrInvalidScope)
    } else if e == 6 {
        Option::Some(ErrorCode::ErrNoLicenseServer)
    } else if e == 7 {
        Option::Some(ErrorCode::StatusValidClient)
    } else if e == 8 {
        Option::Some(ErrorCode::ErrInvalidClient)
    } else if e == 0x0b {
        Option::Some(ErrorCode::ErrInvalidProductid)
    } else if e == 0x0c {
        Option::Some(ErrorCode::ErrInvalidMessageLen)
    } else if e == 3 {
        Option::Some(ErrorCode::ErrInvalidMac)
    } else {
        Option::None
    }
}

impl ErrorCode {
    /// Maps a wire code to its error code, where one is defined.
    pub fn from_code(e: u32) -> (r: Option<ErrorCode>)
        ensures
            r == error_code_from(e),
    {
        if e == 1 {
            Option::Some(ErrorCode::ErrInvalidServerCertificate)
        } else if e == 2 {
            Option::Some(ErrorCode::ErrNoLicense)
        } else if e == 4 {
            Option::Some(ErrorCode::ErrInvalidScope)
        } else if e == 6 {
            Option::Some(ErrorCode::ErrNoLicenseServer)
        } else if e == 7 {
            Option::Some(ErrorCode::StatusValidClient)
        } else if e == 8 {
            Option::Some(ErrorCode::ErrInvalidClient)
        } else if e == 0x0b {
            Option::Some(ErrorCode::ErrInvalidProductid)
        } else if e == 0x0c {
            Option::Some(ErrorCode::ErrInvalidMessageLen)
        } else if e == 3 {
            Option::Some(ErrorCode::ErrInvalidMac)
        } else {
            Option::None
        }
    }
}

/// The state transitions of the licensing automaton.
#[derive(Clone, Copy, Debug, PartialEq, Eq, Structural)]
pub enum StateTransition {
    TotalAbort,
    NoTransition,
    ResetPhaseToStart,
    ResendLastMessage,
}

/// What a state-transition code maps to, where it is known.
pub open spec fn state_transition_from(e: u32) -> Option<StateTransition> {
    if e == 1 {
        Option::Some(StateTransition::TotalAbort)
    } else if e == 2 {
        Option::Some(StateTransition::NoTransition)
    } else if e == 3 {
        Option::Some(StateTransition::ResetPhaseToStart)
    } else if e == 4 {
        Option::Some(StateTransition::ResendLastMessage)
    } else {
        Option::None
    }
}

impl StateTransition {
    /// Maps a wire code to its transition, where one is defined.
    pub fn from_code(e: u32) -> (r: Option<StateTransition>)
        ensures
            r == state_transition_from(e),
    {
        if e == 1 {
            Option::Some(StateTransition::TotalAbort)
        } else if e == 2 {
            Option::Some(StateTransition::NoTransition)
        } else if e == 3 {
            Option::Some(StateTransition::ResetPhaseToStart)
        } else if e == 4 {
            Option::Some(StateTransition::ResendLastMessage)
        } else {
            Option::None
        }
    }
}

/// The license preamble: a message type, the protocol version check, and a
/// size that governs the length of the message behind the four header
/// bytes.
pub open spec fn spec_preamble() -> SpecComponent {
    SpecComponent {
        fields: seq![
            SpecField { name: "bMsgtype"@, rule: Option::None, value: SpecFieldValue::U8(0) },
            SpecField { name: "flag"@, rule: Option::None, value: SpecFieldValue::CheckU8(3) },
            SpecField {
                name: "wMsgSize"@,
                rule: Option::None,
                value: SpecFieldValue::U16Le(0),
            },
            SpecField {
                name: "message"@,
                rule: Option::Some(LenRule { gov: 2, factor: 1, sub: 4 }),
                value: SpecFieldValue::DynBytes(Seq::empty()),
            },
        ],
    }
}

/// Builds the license preamble template.
pub fn preamble() -> (r: Component)
    ensures
        r@ == spec_preamble(),
{
    let mut fields: Vec<Field> = Vec::new();
    fields.push(field("bMsgtype", FieldValue::U8(0)));
    fields.push(field("flag", FieldValue::CheckU8(3)));
    fields.push(field("wMsgSize", FieldValue::U16Le(0)));
    fields.push(field_with_rule("message", 2, 1, 4, FieldValue::DynBytes(Vec::new())));
    let c = Component { fields };
    proof {
        lemma_view_fields_from(c.fields@, 0);
        assert(c@.fields =~= spec_preamble().fields);
        assert(c@ =~= spec_preamble());
    }
    c
}

/// The binary blob of the licensing protocol: a type, a length, and as
/// many bytes of data as the length says.
pub open spec fn spec_license_binary_blob() -> SpecComponent {
    SpecComponent {
        fields: seq![
            SpecField {
                name: "wBlobType"@,
                rule: Option::None,
                value: SpecFieldValue::U16Le(0),
            },
            SpecField { name: "wBlobLen"@, rule: Option::None, value: SpecFieldValue::U16Le(0) },
            SpecField {
                name: "blobData"@,
                rule: Option::Some(LenRule { gov: 1, factor: 1, sub: 0 }),
                value: SpecFieldValue::DynBytes(Seq::empty()),
            },
        ],
    }
}

/// Builds the license binary blob template.
pub fn license_binary_blob() -> (r: Component)
    ensures
        r@ == spec_license_binary_blob(),
{
    let mut fields: Vec<Field> = Vec::new();
    fields.push(field("wBlobType", FieldValue::U16Le(0)));
    fields.push(field("wBlobLen", FieldValue::U16Le(0)));
    fields.push(field_with_rule("blobData", 1, 1, 0, FieldValue::DynBytes(Vec::new())));
    let c = Component { fields };
    proof {
        lemma_view_fields_from(c.fields@, 0);
        assert(c@.fields =~= spec_license_binary_blob().fields);
        assert(c@ =~= spec_license_binary_blob());
    }
    c
}

/// The licensing error message: an error code, a state transition, and a
/// trailing blob.
pub open spec fn spec_licensing_error_message() -> SpecComponent {
    SpecComponent {
        fields: seq![
            SpecField {
                name: "dwErrorCode"@,
                rule: Option::None,
                value: SpecFieldValue::U32Le(0),
            },
            SpecField {
                name: "dwStateTransition"@,
                rule: Option::None,
                value: SpecFieldValue::U32Le(0),
            },
            SpecField {
                name: "blob"@,
                rule: Option::None,
                value: SpecFieldValue::Nested(spec_license_binary_blob()),
            },
        ],
    }
}

/// Builds the licensing error message template.
pub fn licensing_error_message() -> (r: Component)
    ensures
        r@ == spec_licensing_error_message(),
{
    let mut fields: Vec<Field> = Vec::new();
    fields.push(field("dwErrorCode", FieldValue::U32Le(0)));
    fields.push(field("dwStateTransition", FieldValue::U32Le(0)));
    fields.push(field("blob", FieldValue::Nested(license_binary_blob())));
    let c = Component { fields };
    proof {
        lemma_view_fields_from(c.fields@, 0);
        assert(c@.fields =~= spec_licensing_error_message().fields);
        assert(c@ =~= spec_licensing_error_message());
    }
    c
}

/// What parsing the payload behind a preamble gives: no component for a
/// new license, the decoded error message for an alert, `NotImplemented`
/// for any other known message type, and `InvalidData` for an unknown one.
pub open spec fn spec_parse_payload(p: SpecComponent) -> Result<Option<SpecComponent>, RdpErrorKind> {
    match as_u8(spec_get(p, "bMsgtype"@)) {
        Option::None => Result::Err(RdpErrorKind::InvalidCast),
        Option::Some(t) => if t == 0x03 {
            Result::Ok(Option::None)
        } else if t == 0xff {
            match as_bytes(spec_get(p, "message"@)) {
                Option::None => Result::Err(RdpErrorKind::InvalidCast),
                Option::Some(b) => match spec_read_component(
                    spec_licensing_error_message(),
                    b,
                    0,
                    b.len() as int,
                ) {
                    Result::Err(e) => Result::Err(e),
                    Result::Ok((em, _)) => Result::Ok(Option::Some(em)),
                },
            }
        } else if message_type_from(t) is Some {
            Result::Err(RdpErrorKind::NotImplemented)
        } else {
            Result::Err(RdpErrorKind::InvalidData)
        },
    }
}

/// Parses the payload that follows a preamble. Only `NewLicense` and
/// `ErrorAlert` are accepted.
pub fn parse_payload(payload: &Component) -> (r: RdpResult<LicenseMessage>)
    ensures
        r matches Result::Ok(m) ==> (match m {
            LicenseMessage::NewLicense => spec_parse_payload(payload@) == Result::<
                Option<SpecComponent>,
                RdpErrorKind,
            >::Ok(Option::None),
            LicenseMessage::ErrorAlert(c) => spec_parse_payload(payload@) == Result::<
                Option<SpecComponent>,
                RdpErrorKind,
            >::Ok(Option::Some(c@)),
        }),
        r matches Result::Err(e) ==> spec_parse_payload(payload@) == Result::<
            Option<SpecComponent>,
            RdpErrorKind,
        >::Err(e.kind),
{
    let t = match payload.cast_u8("bMsgtype") {
        Result::Ok(t) => t,
        Result::Err(e) => {
            return Result::Err(e);
        },
    };
    if t == 0x03 {
        return Result::Ok(LicenseMessage::NewLicense);
    }
    if t == 0xff {
        let message = match payload.cast_bytes("message") {
            Result::Ok(b) => b,
            Result::Err(e) => {
                return Result::Err(e);
            },
        };
        let mut em = licensing_error_message();
        match em.read(message.as_slice(), 0, message.len()) {
            Result::Ok(_) => {},
            Result::Err(e) => {
                return Result::Err(e);
            },
        }
        return Result::Ok(LicenseMessage::ErrorAlert(em));
    }
    match MessageType::from_code(t) {
        Option::Some(_) => Result::Err(RdpError::new(RdpErrorKind::NotImplemented)),
        Option::None => Result::Err(RdpError::new(RdpErrorKind::InvalidData)),
    }
}

/// What the license exchange accepts, from the bytes of one license
/// message: exactly a `NewLicense` message, or an `ErrorAlert` whose error
/// code is "valid client" and whose transition is "no transition"; every
/// other alert fails with `InvalidRespond`.
pub open spec fn spec_client_connect(input: Seq<u8>) -> Result<(), RdpErrorKind> {
    match spec_read_component(spec_preamble(), input, 0, input.len() as int) {
        Result::Err(e) => Result::Err(e),
        Result::Ok((p, _)) => match spec_parse_payload(p) {
            Result::Err(e) => Result::Err(e),
            Result::Ok(Option::None) => Result::Ok(()),
            Result::Ok(Option::Some(em)) => match (
                as_u32(spec_get(em, "dwErrorCode"@)),
                as_u32(spec_get(em, "dwStateTransition"@)),
            ) {
                (Option::Some(ec), Option::Some(st)) => if error_code_from(ec) is None {
                    Result::Err(RdpErrorKind::InvalidData)
                } else if state_transition_from(st) is None {
                    Result::Err(RdpErrorKind::InvalidData)
                } else if ec == 7 && st == 2 {
                    Result::Ok(())
                } else {
                    Result::Err(RdpErrorKind::InvalidRespond)
                },
                _ => Result::Err(RdpErrorKind::InvalidCast),
            },
        },
    }
}

/// Runs the client side of the license exchange over the bytes of one
/// received license message. It succeeds exactly where the exchange model
/// accepts: a new license, or a "valid client, no transition" alert.
pub fn client_connect(s: &[u8]) -> (r: RdpResult<()>)
    ensures
        r matches Result::Ok(u) ==> spec_client_connect(s@) == Result::<(), RdpErrorKind>::Ok(()),
        r matches Result::Err(e) ==> spec_client_connect(s@) == Result::<(), RdpErrorKind>::Err(
            e.kind,
        ),
{
    let mut license_message = preamble();
    match license_message.read(s, 0, s.len()) {
        Result::Ok(_) => {},
        Result::Err(e) => {
            return Result::Err(e);
        },
    }
    match parse_payload(&license_message) {
        Result::Err(e) => Result::Err(e),
        Result::Ok(LicenseMessage::NewLicense) => Result::Ok(()),
        Result::Ok(LicenseMessage::ErrorAlert(blob)) => {
            let ec = match blob.cast_u32("dwErrorCode") {
                Result::Ok(v) => v,
                Result::Err(e) => {
                    return Result::Err(e);
                },
            };
            let st = match blob.cast_u32("dwStateTransition") {
                Result::Ok(v) => v,
                Result::Err(e) => {
                    return Result::Err(e);
                },
            };
            if ErrorCode::from_code(ec).is_none() {
                return Result::Err(RdpError::new(RdpErrorKind::InvalidData));
            }
            if StateTransition::from_code(st).is_none() {
                return Result::Err(RdpError::new(RdpErrorKind::InvalidData));
            }
            if ec == 7 && st == 2 {
                Result::Ok(())
            } else {
                Result::Err(RdpError::new(RdpErrorKind::InvalidRespond))
            }
        },
    }
}

} // verus!
