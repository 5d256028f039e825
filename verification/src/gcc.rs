use vstd::prelude::*;

use crate::data::{
    as_u16, as_u16_array, as_u32, enc_components_from, field, field_with_rule,
    lemma_view_fields_from, lemma_wf_plain, plain_field, spec_get, spec_read_component, to_vec,
    wf_component, wf_fields_from, Component, Field, FieldValue, LenRule, SpecComponent, SpecField,
    SpecFieldValue,
};
use crate::error::{RdpError, RdpErrorKind, RdpResult};
use crate::per;
use crate::unicode::{utf16_le_bytes, Unicode};

verus! {

// ---------------------------------------------------------------------------
// GCC conference create (T.124): the client and server user-data blocks that
// are exchanged at MCS connect, and the PER-encoded envelope around them.
// ---------------------------------------------------------------------------

/// The RDP protocol version advertised in the core data blocks.
#[derive(Clone, Copy, Debug, PartialEq, Eq, Structural)]
pub enum Version {
    RdpVersion,
    RdpVersion5plus,
    Unknown,
}

/// The wire code of a version.
pub open spec fn version_code(v: Version) -> u32 {
    match v {
        Version::RdpVersion => 0x0008_0001,
        Version::RdpVersion5plus => 0x0008_0004,
        Version::Unknown => 0x0008_0005,
    }
}

/// What a version wire code maps back to.
pub open spec fn version_from(e: u32) -> Version {
    if e == 0x0008_0001 {
        Version::RdpVersion5plus
    } else if e == 0x0008_0004 {
        Version::RdpVersion
    } else {
        Version::Unknown
    }
}

impl Version {
    /// The wire code of this version.
    pub fn code(&self) -> (r: u32)
        ensures
            r == version_code(*self),
    {
        match self {
            Version::RdpVersion => 0x0008_0001,
            Version::RdpVersion5plus => 0x0008_0004,
            Version::Unknown => 0x0008_0005,
        }
    }
}

impl vstd::std_specs::convert::FromSpecImpl<u32> for Version {
    open spec fn obeys_from_spec() -> bool {
        true
    }

    open spec fn from_spec(e: u32) -> Version {
        version_from(e)
    }
}

impl From<u32> for Version {
    fn from(e: u32) -> (r: Version) {
        if e == 0x0008_0001 {
            Version::RdpVersion5plus
        } else if e == 0x0008_0004 {
            Version::RdpVersion
        } else {
            Version::Unknown
        }
    }
}

/// Keyboard layouts the client can advertise.
#[derive(Clone, Copy, Debug, PartialEq, Eq, Structural)]
pub enum KeyboardLayout {
    Arabic,
    Bulgarian,
    ChineseUsKeyboard,
    Czech,
    Danish,
    German,
    Greek,
    US,
    Spanish,
    Finnish,
    French,
    Hebrew,
    Hungarian,
    Icelandic,
    Italian,
    Japanese,
    Korean,
    Dutch,
    Norwegian,
}

/// The wire code of a keyboard layout.
pub open spec fn keyboard_layout_code(k: KeyboardLayout) -> u32 {
    match k {
        KeyboardLayout::Arabic => 0x0000_0401,
        KeyboardLayout::Bulgarian => 0x0000_0402,
        KeyboardLayout::ChineseUsKeyboard => 0x0000_0404,
        KeyboardLayout::Czech => 0x0000_0405,
        KeyboardLayout::Danish => 0x0000_0406,
        KeyboardLayout::German => 0x0000_0407,
        KeyboardLayout::Greek => 0x0000_0408,
        KeyboardLayout::US => 0x0000_0409,
        KeyboardLayout::Spanish => 0x0000_040a,
        KeyboardLayout::Finnish => 0x0000_040b,
        KeyboardLayout::French => 0x0000_040c,
        KeyboardLayout::Hebrew => 0x0000_040d,
        KeyboardLayout::Hungarian => 0x0000_040e,
        KeyboardLayout::Icelandic => 0x0000_040f,
        KeyboardLayout::Italian => 0x0000_0410,
        KeyboardLayout::Japanese => 0x0000_0411,
        KeyboardLayout::Korean => 0x0000_0412,
        KeyboardLayout::Dutch => 0x0000_0413,
        KeyboardLayout::Norwegian => 0x0000_0414,
    }
}

impl KeyboardLayout {
    /// The wire code of this layout.
    pub fn code(&self) -> (r: u32)
        ensures
            r == keyboard_layout_code(*self),
    {
        match self {
            KeyboardLayout::Arabic => 0x0000_0401,
            KeyboardLayout::Bulgarian => 0x0000_0402,
            KeyboardLayout::ChineseUsKeyboard => 0x0000_0404,
            KeyboardLayout::Czech => 0x0000_0405,
            KeyboardLayout::Danish => 0x0000_0406,
            KeyboardLayout::German => 0x0000_0407,
            KeyboardLayout::Greek => 0x0000_0408,
            KeyboardLayout::US => 0x0000_0409,
            KeyboardLayout::Spanish => 0x0000_040a,
            KeyboardLayout::Finnish => 0x0000_040b,
            KeyboardLayout::French => 0x0000_040c,
            KeyboardLayout::Hebrew => 0x0000_040d,
            KeyboardLayout::Hungarian => 0x0000_040e,
            KeyboardLayout::Icelandic => 0x0000_040f,
            KeyboardLayout::Italian => 0x0000_0410,
            KeyboardLayout::Japanese => 0x0000_0411,
            KeyboardLayout::Korean => 0x0000_0412,
            KeyboardLayout::Dutch => 0x0000_0413,
            KeyboardLayout::Norwegian => 0x0000_0414,
        }
    }
}

/// Keyboard hardware types; 101/102 keys is the common one.
#[derive(Clone, Copy, Debug, PartialEq, Eq, Structural)]
pub enum KeyboardType {
    IbmPcXt83Key,
    Olivetti,
    IbmPcAt84Key,
    Ibm101102Keys,
    Nokia1050,
    Nokia9140,
    Japanese,
}

/// The wire code of a keyboard type.
pub open spec fn keyboard_type_code(k: KeyboardType) -> u32 {
    match k {
        KeyboardType::IbmPcXt83Key => 1,
        KeyboardType::Olivetti => 2,
        KeyboardType::IbmPcAt84Key => 3,
        KeyboardType::Ibm101102Keys => 4,
        KeyboardType::Nokia1050 => 5,
        KeyboardType::Nokia9140 => 6,
        KeyboardType::Japanese => 7,
    }
}

impl KeyboardType {
    /// The wire code of this keyboard type.
    pub fn code(&self) -> (r: u32)
        ensures
            r == keyboard_type_code(*self),
    {
        match self {
            KeyboardType::IbmPcXt83Key => 1,
            KeyboardType::Olivetti => 2,
            KeyboardType::IbmPcAt84Key => 3,
            KeyboardType::Ibm101102Keys => 4,
            KeyboardType::Nokia1050 => 5,
            KeyboardType::Nokia9140 => 6,
            KeyboardType::Japanese => 7,
        }
    }
}

/// The block types of the conference-create user data.
#[derive(Clone, Copy, Debug, PartialEq, Eq, Structural)]
pub enum MessageType {
    ScCore,
    ScSecurity,
    ScNet,
    CsCore,
    CsSecurity,
    CsNet,
    CsCluster,
    CsMonitor,
    Unknown,
}

/// The wire code of a block type.
pub open spec fn message_type_code(m: MessageType) -> u16 {
    match m {
        MessageType::ScCore => 0x0c01,
        MessageType::ScSecurity => 0x0c02,
        MessageType::ScNet => 0x0c03,
        MessageType::CsCore => 0xc001,
        MessageType::CsSecurity => 0xc002,
        MessageType::CsNet => 0xc003,
        MessageType::CsCluster => 0xc004,
        MessageType::CsMonitor => 0xc005,
        MessageType::Unknown => 0,
    }
}

/// What a block-type wire code maps back to.
pub open spec fn message_type_from(e: u16) -> MessageType {
    if e == 0x0c01 {
        MessageType::ScCore
    } else if e == 0x0c02 {
        MessageType::ScSecurity
    } else if e == 0x0c03 {
        MessageType::ScNet
    } else if e == 0xc001 {
        MessageType::CsCore
    } else if e == 0xc002 {
        MessageType::CsSecurity
    } else if e == 0xc003 {
        MessageType::CsNet
    } else if e == 0xc004 {
        MessageType::CsCluster
    } else if e == 0xc005 {
        MessageType::CsMonitor
    } else {
        MessageType::Unknown
    }
}

impl MessageType {
    /// The wire code of this block type.
    pub fn code(&self) -> (r: u16)
        ensures
            r == message_type_code(*self),
    {
        match self {
            MessageType::ScCore => 0x0c01,
            MessageType::ScSecurity => 0x0c02,
            MessageType::ScNet => 0x0c03,
            MessageType::CsCore => 0xc001,
            MessageType::CsSecurity => 0xc002,
            MessageType::CsNet => 0xc003,
            MessageType::CsCluster => 0xc004,
            MessageType::CsMonitor => 0xc005,
            MessageType::Unknown => 0,
        }
    }
}

impl vstd::std_specs::convert::FromSpecImpl<u16> for MessageType {
    open spec fn obeys_from_spec() -> bool {
        true
    }

    open spec fn from_spec(e: u16) -> MessageType {
        message_type_from(e)
    }
}

impl From<u16> for MessageType {
    fn from(e: u16) -> (r: MessageType) {
        if e == 0x0c01 {
            MessageType::ScCore
        } else if e == 0x0c02 {
            MessageType::ScSecurity
        } else if e == 0x0c03 {
            MessageType::ScNet
        } else if e == 0xc001 {
            MessageType::CsCore
        } else if e == 0xc002 {
            MessageType::CsSecurity
        } else if e == 0xc003 {
            MessageType::CsNet
        } else if e == 0xc004 {
            MessageType::CsCluster
        } else if e == 0xc005 {
            MessageType::CsMonitor
        } else {
            MessageType::Unknown
        }
    }
}

/// What the client advertises in its core data block.
pub struct ClientData {
    pub width: u16,
    pub height: u16,
    pub layout: KeyboardLayout,
    pub server_selected_protocol: u32,
    pub rdp_version: Version,
    pub name: String,
}

/// What the server's blocks give back: its channel ids and RDP version.
#[derive(Debug)]
pub struct ServerData {
    pub channel_ids: Vec<u16>,
    pub rdp_version: Version,
}

/// The client name as carried on the wire: UTF-16LE, truncated or
/// zero-padded to exactly 32 bytes.
pub open spec fn client_name_bytes(name: Seq<char>) -> Seq<u8> {
    let b = utf16_le_bytes(name);
    if b.len() >= 32 {
        b.take(32)
    } else {
        b + Seq::new((32 - b.len()) as nat, |i: int| 0u8)
    }
}

fn name_field_bytes(name: &String) -> (r: Vec<u8>)
    ensures
        r@ == client_name_bytes(name@),
{
    let mut b: Vec<u8> = name.to_utf16_le();
    if b.len() >= 32 {
        b.truncate(32);
        assert(b@ =~= client_name_bytes(name@));
        b
    } else {
        while b.len() < 32
            invariant
                b@.len() <= 32,
                utf16_le_bytes(name@).len() < 32,
                b@ == utf16_le_bytes(name@) + Seq::new(
                    (b@.len() - utf16_le_bytes(name@).len()) as nat,
                    |i: int| 0u8,
                ),
            decreases 32 - b@.len(),
        {
            b.push(0);
            assert(b@ =~= utf16_le_bytes(name@) + Seq::new(
                (b@.len() - utf16_le_bytes(name@).len()) as nat,
                |i: int| 0u8,
            ));
        }
        assert(b@ =~= client_name_bytes(name@));
        b
    }
}

/// A vector of `n` zero bytes.
fn zero_bytes(n: usize) -> (r: Vec<u8>)
    ensures
        r@ == Seq::new(n as nat, |i: int| 0u8),
{
    let mut v: Vec<u8> = Vec::new();
    let mut k: usize = 0;
    while k < n
        invariant
            k <= n,
            v@ == Seq::new(k as nat, |i: int| 0u8),
        decreases n - k,
    {
        v.push(0);
        assert(v@ =~= Seq::new((k + 1) as nat, |i: int| 0u8));
        k = k + 1;
    }
    v
}

/// The client core data block: the mandatory fields of the client's
/// capabilities summary.
pub open spec fn spec_client_core_data(
    version: u32,
    width: u16,
    height: u16,
    kbd_layout: u32,
    name_bytes: Seq<u8>,
    ssp: u32,
) -> SpecComponent {
    SpecComponent {
        fields: seq![
            SpecField {
                name: "version"@,
                rule: Option::None,
                value: SpecFieldValue::U32Le(version),
            },
            SpecField {
                name: "desktopWidth"@,
                rule: Option::None,
                value: SpecFieldValue::U16Le(width),
            },
            SpecField {
                name: "desktopHeight"@,
                rule: Option::None,
                value: SpecFieldValue::U16Le(height),
            },
            SpecField {
                name: "colorDepth"@,
                rule: Option::None,
                value: SpecFieldValue::U16Le(0xca01),
            },
            SpecField {
                name: "sasSequence"@,
                rule: Option::None,
                value: SpecFieldValue::U16Le(0xaa03),
            },
            SpecField {
                name: "kbdLayout"@,
                rule: Option::None,
                value: SpecFieldValue::U32Le(kbd_layout),
            },
            SpecField {
                name: "clientBuild"@,
                rule: Option::None,
                value: SpecFieldValue::U32Le(3790),
            },
            SpecField {
                name: "clientName"@,
                rule: Option::None,
                value: SpecFieldValue::Bytes(name_bytes),
            },
            SpecField {
                name: "keyboardType"@,
                rule: Option::None,
                value: SpecFieldValue::U32Le(4),
            },
            SpecField {
                name: "keyboardSubType"@,
                rule: Option::None,
                value: SpecFieldValue::U32Le(0),
            },
            SpecField {
                name: "keyboardFnKeys"@,
                rule: Option::None,
                value: SpecFieldValue::U32Le(12),
            },
            SpecField {
                name: "imeFileName"@,
                rule: Option::None,
                value: SpecFieldValue::Bytes(Seq::new(64, |i: int| 0u8)),
            },
            SpecField {
                name: "postBeta2ColorDepth"@,
                rule: Option::None,
                value: SpecFieldValue::U16Le(0xca01),
            },
            SpecField {
                name: "clientProductId"@,
                rule: Option::None,
                value: SpecFieldValue::U16Le(1),
            },
            SpecField {
                name: "serialNumber"@,
                rule: Option::None,
                value: SpecFieldValue::U32Le(0),
            },
            SpecField {
                name: "highColorDepth"@,
                rule: Option::None,
                value: SpecFieldValue::U16Le(0x0018),
            },
            SpecField {
                name: "supportedColorDepths"@,
                rule: Option::None,
                value: SpecFieldValue::U16Le(0x000a),
            },
            SpecField {
                name: "earlyCapabilityFlags"@,
                rule: Option::None,
                value: SpecFieldValue::U16Le(0x0001),
            },
            SpecField {
                name: "clientDigProductId"@,
                rule: Option::None,
                value: SpecFieldValue::Bytes(Seq::new(64, |i: int| 0u8)),
            },
            SpecField {
                name: "connectionType"@,
                rule: Option::None,
                value: SpecFieldValue::U8(0),
            },
            SpecField {
                name: "pad1octet"@,
                rule: Option::None,
                value: SpecFieldValue::U8(0),
            },
            SpecField {
                name: "serverSelectedProtocol"@,
                rule: Option::None,
                value: SpecFieldValue::U32Le(ssp),
            },
        ],
    }
}

/// Builds the client core data block. Without parameters it advertises a
/// zero-sized screen, the French layout and RDP version 5+, as a bare
/// template does.
pub fn client_core_data(parameter: Option<ClientData>) -> (r: Component)
    ensures
        parameter matches Option::Some(p) ==> r@ == spec_client_core_data(
            version_code(p.rdp_version),
            p.width,
            p.height,
            keyboard_layout_code(p.layout),
            client_name_bytes(p.name@),
            p.server_selected_protocol,
        ),
        parameter is None ==> r@ == spec_client_core_data(
            0x0008_0004,
            0,
            0,
            0x0000_040c,
            client_name_bytes(Seq::empty()),
            0,
        ),
        wf_component(r@),
{
    let p = match parameter {
        Option::Some(p) => p,
        Option::None => ClientData {
            width: 0,
            height: 0,
            layout: KeyboardLayout::French,
            server_selected_protocol: 0,
            rdp_version: Version::RdpVersion5plus,
            name: String::new(),
        },
    };
    let name_bytes = name_field_bytes(&p.name);
    let mut fields: Vec<Field> = Vec::new();
    fields.push(field("version", FieldValue::U32Le(p.rdp_version.code())));
    fields.push(field("desktopWidth", FieldValue::U16Le(p.width)));
    fields.push(field("desktopHeight", FieldValue::U16Le(p.height)));
    fields.push(field("colorDepth", FieldValue::U16Le(0xca01)));
    fields.push(field("sasSequence", FieldValue::U16Le(0xaa03)));
    fields.push(field("kbdLayout", FieldValue::U32Le(p.layout.code())));
    fields.push(field("clientBuild", FieldValue::U32Le(3790)));
    fields.push(field("clientName", FieldValue::Bytes(name_bytes)));
    fields.push(field("keyboardType", FieldValue::U32Le(KeyboardType::Ibm101102Keys.code())));
    fields.push(field("keyboardSubType", FieldValue::U32Le(0)));
    fields.push(field("keyboardFnKeys", FieldValue::U32Le(12)));
    fields.push(field("imeFileName", FieldValue::Bytes(zero_bytes(64))));
    fields.push(field("postBeta2ColorDepth", FieldValue::U16Le(0xca01)));
    fields.push(field("clientProductId", FieldValue::U16Le(1)));
    fields.push(field("serialNumber", FieldValue::U32Le(0)));
    fields.push(field("highColorDepth", FieldValue::U16Le(0x0018)));
    fields.push(field("supportedColorDepths", FieldValue::U16Le(0x000a)));
    fields.push(field("earlyCapabilityFlags", FieldValue::U16Le(0x0001)));
    fields.push(field("clientDigProductId", FieldValue::Bytes(zero_bytes(64))));
    fields.push(field("connectionType", FieldValue::U8(0)));
    fields.push(field("pad1octet", FieldValue::U8(0)));
    fields.push(field("serverSelectedProtocol", FieldValue::U32Le(p.server_selected_protocol)));
    let c = Component { fields };
    proof {
        lemma_view_fields_from(c.fields@, 0);
        let goal = spec_client_core_data(
            version_code(p.rdp_version),
            p.width,
            p.height,
            keyboard_layout_code(p.layout),
            client_name_bytes(p.name@),
            p.server_selected_protocol,
        );
        assert(c@.fields =~= goal.fields);
        assert(c@ =~= goal);
        assert forall|j: int| 0 <= j < c@.fields.len() implies plain_field(
            #[trigger] c@.fields[j],
        ) by {
            assert(c@.fields[j] == goal.fields[j]);
        }
        lemma_wf_plain(c@.fields, 0);
    }
    c
}

/// The server core data block: the RDP version and two optional trailing
/// fields that older servers omit.
pub open spec fn spec_server_core_data() -> SpecComponent {
    SpecComponent {
        fields: seq![
            SpecField {
                name: "rdpVersion"@,
                rule: Option::None,
                value: SpecFieldValue::U32Le(0),
            },
            SpecField {
                name: "clientRequestedProtocol"@,
                rule: Option::None,
                value: SpecFieldValue::OptU32Le(Option::Some(0)),
            },
            SpecField {
                name: "earlyCapabilityFlags"@,
                rule: Option::None,
                value: SpecFieldValue::OptU32Le(Option::Some(0)),
            },
        ],
    }
}

/// Builds the server core data template.
pub fn server_core_data() -> (r: Component)
    ensures
        r@ == spec_server_core_data(),
        wf_component(r@),
{
    let mut fields: Vec<Field> = Vec::new();
    fields.push(field("rdpVersion", FieldValue::U32Le(0)));
    fields.push(field("clientRequestedProtocol", FieldValue::OptU32Le(Option::Some(0))));
    fields.push(field("earlyCapabilityFlags", FieldValue::OptU32Le(Option::Some(0))));
    let c = Component { fields };
    proof {
        lemma_view_fields_from(c.fields@, 0);
        assert(c@.fields =~= spec_server_core_data().fields);
        assert(c@ =~= spec_server_core_data());
        assert forall|j: int| 0 <= j < c@.fields.len() implies plain_field(
            #[trigger] c@.fields[j],
        ) by {
            assert(c@.fields[j] == spec_server_core_data().fields[j]);
        }
        lemma_wf_plain(c@.fields, 0);
    }
    c
}

/// The client security data block: the encryption methods offered for the
/// legacy security layer.
pub open spec fn spec_client_security_data() -> SpecComponent {
    SpecComponent {
        fields: seq![
            SpecField {
                name: "encryptionMethods"@,
                rule: Option::None,
                value: SpecFieldValue::U32Le(0x0000_000b),
            },
            SpecField {
                name: "extEncryptionMethods"@,
                rule: Option::None,
                value: SpecFieldValue::U32Le(0),
            },
        ],
    }
}

/// Builds the client security data block, offering 40-, 56- and 128-bit
/// legacy encryption.
pub fn client_security_data() -> (r: Component)
    ensures
        r@ == spec_client_security_data(),
        wf_component(r@),
{
    let mut fields: Vec<Field> = Vec::new();
    fields.push(field("encryptionMethods", FieldValue::U32Le(0x0000_000b)));
    fields.push(field("extEncryptionMethods", FieldValue::U32Le(0)));
    let c = Component { fields };
    proof {
        lemma_view_fields_from(c.fields@, 0);
        assert(c@.fields =~= spec_client_security_data().fields);
        assert(c@ =~= spec_client_security_data());
        assert forall|j: int| 0 <= j < c@.fields.len() implies plain_field(
            #[trigger] c@.fields[j],
        ) by {
            assert(c@.fields[j] == spec_client_security_data().fields[j]);
        }
        lemma_wf_plain(c@.fields, 0);
    }
    c
}

/// The server security data block, checked when no TLS layer stands below.
pub open spec fn spec_server_security_data() -> SpecComponent {
    SpecComponent {
        fields: seq![
            SpecField {
                name: "encryptionMethod"@,
                rule: Option::None,
                value: SpecFieldValue::U32Le(0),
            },
            SpecField {
                name: "encryptionLevel"@,
                rule: Option::None,
                value: SpecFieldValue::U32Le(0),
            },
        ],
    }
}

/// Builds the server security data template.
pub fn server_security_data() -> (r: Component)
    ensures
        r@ == spec_server_security_data(),
        wf_component(r@),
{
    let mut fields: Vec<Field> = Vec::new();
    fields.push(field("encryptionMethod", FieldValue::U32Le(0)));
    fields.push(field("encryptionLevel", FieldValue::U32Le(0)));
    let c = Component { fields };
    proof {
        lemma_view_fields_from(c.fields@, 0);
        assert(c@.fields =~= spec_server_security_data().fields);
        assert(c@ =~= spec_server_security_data());
        assert forall|j: int| 0 <= j < c@.fields.len() implies plain_field(
            #[trigger] c@.fields[j],
        ) by {
            assert(c@.fields[j] == spec_server_security_data().fields[j]);
        }
        lemma_wf_plain(c@.fields, 0);
    }
    c
}

/// One virtual channel definition: a name and its option flags.
pub open spec fn spec_channel_def(name_bytes: Seq<u8>, options: u32) -> SpecComponent {
    SpecComponent {
        fields: seq![
            SpecField {
                name: "name"@,
                rule: Option::None,
                value: SpecFieldValue::Bytes(name_bytes),
            },
            SpecField {
                name: "options"@,
                rule: Option::None,
                value: SpecFieldValue::U32Le(options),
            },
        ],
    }
}

/// Builds one channel definition from the channel's name and options.
pub fn channel_def(name: &String, options: u32) -> (r: Component)
    ensures
        r@ == spec_channel_def(vstd::utf8::encode_utf8(name@), options),
        wf_component(r@),
{
    let mut nb: Vec<u8> = Vec::new();
    nb.extend_from_slice(name.as_str().as_bytes());
    assert(nb@ =~= vstd::utf8::encode_utf8(name@));
    let mut fields: Vec<Field> = Vec::new();
    fields.push(field("name", FieldValue::Bytes(nb)));
    fields.push(field("options", FieldValue::U32Le(options)));
    let c = Component { fields };
    proof {
        lemma_view_fields_from(c.fields@, 0);
        let goal = spec_channel_def(vstd::utf8::encode_utf8(name@), options);
        assert(c@.fields =~= goal.fields);
        assert(c@ =~= goal);
        assert forall|j: int| 0 <= j < c@.fields.len() implies plain_field(
            #[trigger] c@.fields[j],
        ) by {
            assert(c@.fields[j] == goal.fields[j]);
        }
        lemma_wf_plain(c@.fields, 0);
    }
    c
}

/// The client network data block: the channel count, then the serialized
/// channel definitions.
pub open spec fn spec_client_network_data(count: u32, payload: Seq<u8>) -> SpecComponent {
    SpecComponent {
        fields: seq![
            SpecField {
                name: "channelCount"@,
                rule: Option::None,
                value: SpecFieldValue::U32Le(count),
            },
            SpecField {
                name: "channelDefArray"@,
                rule: Option::None,
                value: SpecFieldValue::Bytes(payload),
            },
        ],
    }
}

/// Builds the client network data block from the channel definitions.
pub fn client_network_data(channel_def_array: Vec<Component>) -> (r: Component)
    requires
        channel_def_array@.len() <= 0xffff_ffff,
    ensures
        r@ == spec_client_network_data(
            channel_def_array@.len() as u32,
            enc_components_from(channel_def_array@, 0),
        ),
        wf_component(r@),
{
    let payload = to_vec(&channel_def_array);
    let count: u32 = channel_def_array.len() as u32;
    let mut fields: Vec<Field> = Vec::new();
    fields.push(field("channelCount", FieldValue::U32Le(count)));
    fields.push(field("channelDefArray", FieldValue::Bytes(payload)));
    let c = Component { fields };
    proof {
        lemma_view_fields_from(c.fields@, 0);
        let goal = spec_client_network_data(
            channel_def_array@.len() as u32,
            enc_components_from(channel_def_array@, 0),
        );
        assert(c@.fields =~= goal.fields);
        assert(c@ =~= goal);
        assert forall|j: int| 0 <= j < c@.fields.len() implies plain_field(
            #[trigger] c@.fields[j],
        ) by {
            assert(c@.fields[j] == goal.fields[j]);
        }
        lemma_wf_plain(c@.fields, 0);
    }
    c
}

/// The server network data block: the MCS channel must be 1003; the channel
/// count governs the length of the channel id array behind it.
pub open spec fn spec_server_network_data() -> SpecComponent {
    SpecComponent {
        fields: seq![
            SpecField {
                name: "MCSChannelId"@,
                rule: Option::None,
                value: SpecFieldValue::CheckU16Le(1003),
            },
            SpecField {
                name: "channelCount"@,
                rule: Option::None,
                value: SpecFieldValue::U16Le(0),
            },
            SpecField {
                name: "channelIdArray"@,
                rule: Option::Some(LenRule { gov: 1, factor: 2, sub: 0 }),
                value: SpecFieldValue::ArrayU16Le(Seq::empty()),
            },
        ],
    }
}

/// Builds the server network data template.
pub fn server_network_data() -> (r: Component)
    ensures
        r@ == spec_server_network_data(),
        wf_component(r@),
{
    let mut fields: Vec<Field> = Vec::new();
    fields.push(field("MCSChannelId", FieldValue::CheckU16Le(1003)));
    fields.push(field("channelCount", FieldValue::U16Le(0)));
    fields.push(field_with_rule("channelIdArray", 1, 2, 0, FieldValue::ArrayU16Le(Vec::new())));
    let c = Component { fields };
    proof {
        lemma_view_fields_from(c.fields@, 0);
        assert(c@.fields =~= spec_server_network_data().fields);
        assert(c@ =~= spec_server_network_data());
        lemma_server_network_data_wf();
    }
    c
}

proof fn lemma_server_network_data_wf()
    ensures
        wf_component(spec_server_network_data()),
{
    let f = spec_server_network_data().fields;
    assert(f[2].rule == Option::Some(LenRule { gov: 1, factor: 2, sub: 0 }));
    assert(crate::data::int_val(f[1].value) == Option::Some(0int));
    assert(crate::data::dyn_len(f[2].value) == Option::Some(0int));
    assert(crate::data::rule_ok(f, 2));
    assert(wf_fields_from(f, 3));
    assert(wf_fields_from(f, 2));
    assert(wf_fields_from(f, 1));
    assert(wf_fields_from(f, 0));
}

/// A user-data block header: the block type and the length of the whole
/// block, header included.
pub open spec fn spec_block_header(t: u16, length: u16) -> SpecComponent {
    SpecComponent {
        fields: seq![
            SpecField { name: "type"@, rule: Option::None, value: SpecFieldValue::U16Le(t) },
            SpecField {
                name: "length"@,
                rule: Option::None,
                value: SpecFieldValue::U16Le(length),
            },
        ],
    }
}

/// Builds a block header; the stored length is the body length plus the
/// four header bytes.
pub fn block_header(data_type: Option<MessageType>, length: Option<u16>) -> (r: Component)
    requires
        length matches Option::Some(l) ==> l <= 0xfffb,
    ensures
        r@ == spec_block_header(
            match data_type {
                Option::Some(t) => message_type_code(t),
                Option::None => 0xc001,
            },
            match length {
                Option::Some(l) => (l + 4) as u16,
                Option::None => 4,
            },
        ),
        wf_component(r@),
{
    let t: u16 = match data_type {
        Option::Some(t) => t.code(),
        Option::None => 0xc001,
    };
    let l: u16 = match length {
        Option::Some(l) => l + 4,
        Option::None => 4,
    };
    let mut fields: Vec<Field> = Vec::new();
    fields.push(field("type", FieldValue::U16Le(t)));
    fields.push(field("length", FieldValue::U16Le(l)));
    let c = Component { fields };
    proof {
        lemma_view_fields_from(c.fields@, 0);
        let goal = spec_block_header(
            match data_type {
                Option::Some(t) => message_type_code(t),
                Option::None => 0xc001,
            },
            match length {
                Option::Some(l) => (l + 4) as u16,
                Option::None => 4,
            },
        );
        assert(c@.fields =~= goal.fields);
        assert(c@ =~= goal);
        assert forall|j: int| 0 <= j < c@.fields.len() implies plain_field(
            #[trigger] c@.fields[j],
        ) by {
            assert(c@.fields[j] == goal.fields[j]);
        }
        lemma_wf_plain(c@.fields, 0);
    }
    c
}

/// The T.124 object identifier of the conference-create envelope.
pub open spec fn t124_oid() -> Seq<u8> {
    seq![0u8, 0u8, 20u8, 124u8, 0u8, 1u8]
}

/// The H.221 client-to-server key.
pub open spec fn h221_cs_key() -> Seq<u8> {
    seq![0x44u8, 0x75u8, 0x63u8, 0x61u8]
}

/// The H.221 server-to-client key.
pub open spec fn h221_sc_key() -> Seq<u8> {
    seq![0x4du8, 0x63u8, 0x44u8, 0x6eu8]
}

/// The full conference-create request envelope around opaque user data:
/// the PER prelude with the T.124 object identifier, the conference name,
/// the H.221 client key, then the user data with its length prefix.
pub open spec fn spec_conference_create_request(user_data: Seq<u8>) -> Seq<u8> {
    seq![0u8] + per::per_object_identifier(t124_oid()) + per::per_length(
        (user_data.len() + 14) as u16,
    ) + seq![0u8] + seq![8u8] + per::per_numeric_string(seq![0x31u8], 1) + per::per_padding(1)
        + seq![1u8] + seq![0xc0u8] + per::per_octet_stream(h221_cs_key(), 4)
        + per::per_octet_stream(user_data, 0)
}

/// Writes the conference-create request that carries the client's user
/// data blocks to the server.
pub fn write_conference_create_request(user_data: &[u8]) -> (r: Vec<u8>)
    requires
        user_data@.len() + 14 <= 0x7fff,
    ensures
        r@ == spec_conference_create_request(user_data@),
{
    let mut out: Vec<u8> = Vec::new();
    per::write_choice(0, &mut out);
    let oid: [u8; 6] = [0, 0, 20, 124, 0, 1];
    assert(oid@ =~= t124_oid());
    per::write_object_identifier(oid.as_slice(), &mut out);
    per::write_length((user_data.len() + 14) as u16, &mut out);
    per::write_choice(0, &mut out);
    per::write_selection(8, &mut out);
    let name: [u8; 1] = [0x31];
    assert(name@ =~= seq![0x31u8]);
    per::write_numeric_string(name.as_slice(), 1, &mut out);
    per::write_padding(1, &mut out);
    per::write_number_of_set(1, &mut out);
    per::write_choice(0xc0, &mut out);
    let key: [u8; 4] = [0x44, 0x75, 0x63, 0x61];
    assert(key@ =~= h221_cs_key());
    per::write_octet_stream(key.as_slice(), 4, &mut out);
    per::write_octet_stream(user_data, 0, &mut out);
    assert(out@ =~= spec_conference_create_request(user_data@));
    out
}

// ---------------------------------------------------------------------------
// The conference-create response: the PER prelude around the server's user
// data, then its blocks, read one by one.
// ---------------------------------------------------------------------------

/// Where the server's user data stands inside a conference-create response:
/// the window after the PER prelude, cut down to what the response holds,
/// or the kind the failing prelude read gives.
pub open spec fn spec_ccr_payload(input: Seq<u8>) -> Result<(int, int), RdpErrorKind> {
    if input.len() < 1 {
        Result::Err(RdpErrorKind::InvalidSize)
    } else {
        match per::spec_read_object_identifier(t124_oid(), input, 1) {
            Result::Err(e) => Result::Err(e),
            Result::Ok(p1) => match per::spec_read_length(input, p1) {
                Result::Err(e) => Result::Err(e),
                Result::Ok((l0, p3)) => if p3 + 1 > input.len() {
                    Result::Err(RdpErrorKind::InvalidSize)
                } else if p3 + 3 > input.len() {
                    Result::Err(RdpErrorKind::InvalidSize)
                } else if crate::data::u16_from_be(input[p3 + 1], input[p3 + 2]) != 1001 {
                    Result::Err(RdpErrorKind::InvalidConst)
                } else {
                    match per::spec_read_integer(input, p3 + 3) {
                        Result::Err(e) => Result::Err(e),
                        Result::Ok((v1, p6)) => if p6 + 3 > input.len() {
                            Result::Err(RdpErrorKind::InvalidSize)
                        } else {
                            match per::spec_read_octet_stream(h221_sc_key(), input, p6 + 3) {
                                Result::Err(e) => Result::Err(e),
                                Result::Ok(p11) => match per::spec_read_length(input, p11) {
                                    Result::Err(e) => Result::Err(e),
                                    Result::Ok((ulen, p12)) => Result::Ok(
                                        (
                                            p12,
                                            if p12 + ulen <= input.len() {
                                                p12 + ulen
                                            } else {
                                                input.len() as int
                                            },
                                        ),
                                    ),
                                },
                            }
                        },
                    }
                },
            },
        }
    }
}

/// What a whole conference-create response gives: the server core block's
/// RDP version code and the net block's channel ids, or the kind of the
/// first failure; both blocks are required, `InvalidData` where one is
/// missing.
pub open spec fn spec_read_ccr(input: Seq<u8>) -> Result<(u32, Seq<u16>), RdpErrorKind> {
    match spec_ccr_payload(input) {
        Result::Err(e) => Result::Err(e),
        Result::Ok((s, e2)) => match spec_server_blocks(input, s, e2, Option::None, Option::None) {
            Result::Err(k) => Result::Err(k),
            Result::Ok((core, net)) => match (core, net) {
                (Option::Some(v), Option::Some(ids)) => Result::Ok((v, ids)),
                _ => Result::Err(RdpErrorKind::InvalidData),
            },
        },
    }
}

/// Walking the server's user-data blocks in `input[pos..end]`, carrying the
/// core version and net channel ids found so far. A torn trailing block
/// ends the walk; a block that parses wrongly fails it.
pub open spec fn spec_server_blocks(
    input: Seq<u8>,
    pos: int,
    end: int,
    core: Option<u32>,
    net: Option<Seq<u16>>,
) -> Result<(Option<u32>, Option<Seq<u16>>), RdpErrorKind>
    decreases end - pos,
{
    if pos >= end {
        Result::Ok((core, net))
    } else {
        match spec_read_component(spec_block_header(0xc001, 4), input, pos, end) {
            Result::Err(_) => Result::Ok((core, net)),
            Result::Ok((h, p1)) => match (
                as_u16(spec_get(h, "type"@)),
                as_u16(spec_get(h, "length"@)),
            ) {
                (Option::Some(t), Option::Some(blen)) => if blen < 4 || pos + blen > end || !(pos
                    <= p1 <= pos + blen) {
                    Result::Err(RdpErrorKind::InvalidSize)
                } else {
                    let body = input.subrange(p1, pos + blen);
                    if t == 0x0c01 {
                        match spec_read_component(
                            spec_server_core_data(),
                            body,
                            0,
                            body.len() as int,
                        ) {
                            Result::Err(e) => Result::Err(e),
                            Result::Ok((c, _)) => match as_u32(spec_get(c, "rdpVersion"@)) {
                                Option::Some(v) => spec_server_blocks(
                                    input,
                                    pos + blen,
                                    end,
                                    Option::Some(v),
                                    net,
                                ),
                                Option::None => Result::Err(RdpErrorKind::InvalidCast),
                            },
                        }
                    } else if t == 0x0c02 {
                        match spec_read_component(
                            spec_server_security_data(),
                            body,
                            0,
                            body.len() as int,
                        ) {
                            Result::Err(e) => Result::Err(e),
                            Result::Ok(_) => spec_server_blocks(input, pos + blen, end, core, net),
                        }
                    } else if t == 0x0c03 {
                        match spec_read_component(
                            spec_server_network_data(),
                            body,
                            0,
                            body.len() as int,
                        ) {
                            Result::Err(e) => Result::Err(e),
                            Result::Ok((c, _)) => match as_u16_array(
                                spec_get(c, "channelIdArray"@),
                            ) {
                                Option::Some(ids) => spec_server_blocks(
                                    input,
                                    pos + blen,
                                    end,
                                    core,
                                    Option::Some(ids),
                                ),
                                Option::None => Result::Err(RdpErrorKind::InvalidCast),
                            },
                        }
                    } else {
                        spec_server_blocks(input, pos + blen, end, core, net)
                    }
                },
                _ => Result::Err(RdpErrorKind::InvalidCast),
            },
        }
    }
}

/// The channel ids a collected option holds.
pub open spec fn onet(o: Option<Vec<u16>>) -> Option<Seq<u16>> {
    match o {
        Option::Some(v) => Option::Some(v@),
        Option::None => Option::None,
    }
}

fn bytes_of_range(input: &[u8], a: usize, b: usize) -> (v: Vec<u8>)
    requires
        a <= b <= input@.len(),
    ensures
        v@ == input@.subrange(a as int, b as int),
{
    let mut v: Vec<u8> = Vec::new();
    v.extend_from_slice(&input[a..b]);
    assert(v@ =~= input@.subrange(a as int, b as int));
    v
}

fn read_server_blocks(input: &[u8], start: usize, end: usize) -> (r: RdpResult<
    (Option<u32>, Option<Vec<u16>>),
>)
    requires
        start <= end <= input@.len(),
    ensures
        r matches Result::Ok(t) ==> spec_server_blocks(
            input@,
            start as int,
            end as int,
            Option::None,
            Option::None,
        ) == Result::<(Option<u32>, Option<Seq<u16>>), RdpErrorKind>::Ok((t.0, onet(t.1))),
        r matches Result::Err(e) ==> spec_server_blocks(
            input@,
            start as int,
            end as int,
            Option::None,
            Option::None,
        ) == Result::<(Option<u32>, Option<Seq<u16>>), RdpErrorKind>::Err(e.kind),
{
    let mut pos: usize = start;
    let mut core: Option<u32> = Option::None;
    let mut net: Option<Vec<u16>> = Option::None;
    while pos < end
        invariant
            start <= pos <= end <= input@.len(),
            spec_server_blocks(
                input@,
                start as int,
                end as int,
                Option::None,
                Option::None,
            ) == spec_server_blocks(input@, pos as int, end as int, core, onet(net)),
        decreases end - pos,
    {
        let ghost pos0 = pos as int;
        let ghost core0 = core;
        let ghost net0 = onet(net);
        let mut header = block_header(Option::None, Option::None);
        let p1 = match header.read(input, pos, end) {
            Result::Ok(p) => p,
            Result::Err(_) => {
                return Result::Ok((core, net));
            },
        };
        let t = match header.cast_u16("type") {
            Result::Ok(t) => t,
            Result::Err(e) => {
                return Result::Err(e);
            },
        };
        let blen = match header.cast_u16("length") {
            Result::Ok(l) => l,
            Result::Err(e) => {
                return Result::Err(e);
            },
        };
        if blen < 4 || (blen as usize) > end - pos || p1 > pos + (blen as usize) {
            return Result::Err(RdpError::new(RdpErrorKind::InvalidSize));
        }
        let next: usize = pos + blen as usize;
        let body = bytes_of_range(input, p1, next);
        if t == 0x0c01 {
            let mut sc = server_core_data();
            match sc.read(body.as_slice(), 0, body.len()) {
                Result::Ok(_) => {},
                Result::Err(e) => {
                    return Result::Err(e);
                },
            }
            match sc.cast_u32("rdpVersion") {
                Result::Ok(v) => {
                    core = Option::Some(v);
                },
                Result::Err(_) => {
                    return Result::Err(RdpError::new(RdpErrorKind::InvalidCast));
                },
            }
        } else if t == 0x0c02 {
            let mut ss = server_security_data();
            match ss.read(body.as_slice(), 0, body.len()) {
                Result::Ok(_) => {},
                Result::Err(e) => {
                    return Result::Err(e);
                },
            }
        } else if t == 0x0c03 {
            let mut sn = server_network_data();
            match sn.read(body.as_slice(), 0, body.len()) {
                Result::Ok(_) => {},
                Result::Err(e) => {
                    return Result::Err(e);
                },
            }
            match sn.cast_u16_array("channelIdArray") {
                Result::Ok(ids) => {
                    let mut copy: Vec<u16> = Vec::new();
                    copy.extend_from_slice(ids.as_slice());
                    proof {
                        assert(copy@ =~= ids@);
                    }
                    net = Option::Some(copy);
                },
                Result::Err(_) => {
                    return Result::Err(RdpError::new(RdpErrorKind::InvalidCast));
                },
            }
        }
        pos = next;
        proof {
            assert(spec_server_blocks(input@, pos0, end as int, core0, net0)
                == spec_server_blocks(input@, pos as int, end as int, core, onet(net)));
        }
    }
    Result::Ok((core, net))
}

/// Reads a conference-create response: checks the PER prelude and the
/// server-to-client H.221 key, then walks the user-data blocks. The server
/// core and network blocks are both required; the answer carries the
/// channel ids and the server's RDP version, and a failure carries exactly
/// the kind the response model gives.
pub fn read_conference_create_response(cc_response: &[u8]) -> (r: RdpResult<ServerData>)
    ensures
        r matches Result::Ok(sd) ==> spec_read_ccr(cc_response@) matches Result::Ok(t)
            && sd.rdp_version == version_from(t.0) && sd.channel_ids@ == t.1,
        r matches Result::Err(e) ==> spec_read_ccr(cc_response@) == Result::<
            (u32, Seq<u16>),
            RdpErrorKind,
        >::Err(e.kind),
{
    let input = cc_response;
    let p0 = match per::read_choice(input, 0) {
        Result::Ok(t) => t.1,
        Result::Err(e) => {
            return Result::Err(e);
        },
    };
    let oid: [u8; 6] = [0, 0, 20, 124, 0, 1];
    proof {
        assert(oid@ =~= t124_oid());
    }
    let p1 = match per::read_object_identifier(oid.as_slice(), input, p0) {
        Result::Ok(p) => p,
        Result::Err(e) => {
            return Result::Err(e);
        },
    };
    let p3 = match per::read_length(input, p1) {
        Result::Ok(t) => t.1,
        Result::Err(e) => {
            return Result::Err(e);
        },
    };
    let p4 = match per::read_choice(input, p3) {
        Result::Ok(t) => t.1,
        Result::Err(e) => {
            return Result::Err(e);
        },
    };
    let p5 = match per::read_integer_16(1001, input, p4) {
        Result::Ok(p) => p,
        Result::Err(e) => {
            return Result::Err(e);
        },
    };
    let p6 = match per::read_integer(input, p5) {
        Result::Ok(t) => t.1,
        Result::Err(e) => {
            return Result::Err(e);
        },
    };
    let p7 = match per::read_enumerates(input, p6) {
        Result::Ok(t) => t.1,
        Result::Err(e) => {
            return Result::Err(e);
        },
    };
    let p8 = match per::read_number_of_set(input, p7) {
        Result::Ok(t) => t.1,
        Result::Err(e) => {
            return Result::Err(e);
        },
    };
    let p9 = match per::read_choice(input, p8) {
        Result::Ok(t) => t.1,
        Result::Err(e) => {
            return Result::Err(e);
        },
    };
    let key: [u8; 4] = [0x4d, 0x63, 0x44, 0x6e];
    proof {
        assert(key@ =~= h221_sc_key());
    }
    let p11 = match per::read_octet_stream(key.as_slice(), 4, input, p9) {
        Result::Ok(p) => p,
        Result::Err(e) => {
            return Result::Err(e);
        },
    };
    let (ulen, p12) = match per::read_length(input, p11) {
        Result::Ok(t) => t,
        Result::Err(e) => {
            return Result::Err(e);
        },
    };
    let end: usize = if (ulen as usize) <= input.len() - p12 {
        p12 + ulen as usize
    } else {
        input.len()
    };
    proof {
        assert(spec_ccr_payload(input@) == Result::<(int, int), RdpErrorKind>::Ok(
            (p12 as int, end as int),
        ));
    }
    match read_server_blocks(input, p12, end) {
        Result::Ok((Option::Some(v), Option::Some(ids))) => Result::Ok(
            ServerData { channel_ids: ids, rdp_version: Version::from(v) },
        ),
        Result::Ok(_) => Result::Err(RdpError::new(RdpErrorKind::InvalidData)),
        Result::Err(e) => Result::Err(e),
    }
}

} // verus!
