//! The commands that the engine reads and writes, as plain values.

use vstd::prelude::*;
use rusmpp::types::{COctetString, OctetString};
use std::str::FromStr;
use crate::smpp::session::InterfaceVersion;

verus! {

/// `ESME_ROK`
pub const ESME_ROK: u32 = 0x0000_0000;

/// `ESME_RINVBNDSTS`: the request is not allowed in the current bind state.
pub const ESME_RINVBNDSTS: u32 = 0x0000_0004;

/// `ESME_RBINDFAIL`
pub const ESME_RBINDFAIL: u32 = 0x0000_000D;

/// Status of a command.
#[derive(Debug, Clone, Copy, PartialEq, Eq, Structural)]
pub enum CommandStatus {
    EsmeRok,
    EsmeRinvbndsts,
    EsmeRbindfail,
    /// A status that the engine neither sends nor acts on.
    Other(u32),
}

impl CommandStatus {
    /// The number that stands for the status on the wire.
    pub open spec fn spec_code(self) -> u32 {
        match self {
            CommandStatus::EsmeRok => ESME_ROK,
            CommandStatus::EsmeRinvbndsts => ESME_RINVBNDSTS,
            CommandStatus::EsmeRbindfail => ESME_RBINDFAIL,
            CommandStatus::Other(code) => code,
        }
    }

    /// The number that stands for the status on the wire.
    pub fn code(&self) -> (r: u32)
        ensures
            r == self.spec_code(),
    {
        match self {
            CommandStatus::EsmeRok => ESME_ROK,
            CommandStatus::EsmeRinvbndsts => ESME_RINVBNDSTS,
            CommandStatus::EsmeRbindfail => ESME_RBINDFAIL,
            CommandStatus::Other(code) => *code,
        }
    }

    /// The status that `code` stands for.
    pub fn from_code(code: u32) -> (r: CommandStatus)
        ensures
            r.spec_code() == code,
            code == ESME_ROK ==> r == CommandStatus::EsmeRok,
            code == ESME_RINVBNDSTS ==> r == CommandStatus::EsmeRinvbndsts,
            code == ESME_RBINDFAIL ==> r == CommandStatus::EsmeRbindfail,
    {
        if code == ESME_ROK {
            CommandStatus::EsmeRok
        } else if code == ESME_RINVBNDSTS {
            CommandStatus::EsmeRinvbndsts
        } else if code == ESME_RBINDFAIL {
            CommandStatus::EsmeRbindfail
        } else {
            CommandStatus::Other(code)
        }
    }
}

/// What the engine reads of a bind request.
#[derive(Debug, Clone, PartialEq, Eq)]
pub struct BindRequest {
    pub system_id: String,
    pub password: String,
    /// Empty where the client subscribes to no addresses.
    pub address_range: String,
}

/// Body of a bind response.
#[derive(Debug, Clone, PartialEq, Eq)]
pub struct BindResponse {
    pub system_id: String,
    pub sc_interface_version: Option<InterfaceVersion>,
}

/// What the engine reads of a submitted message.
#[derive(Debug, Clone, PartialEq, Eq)]
pub struct SubmitSm {
    pub source_addr: String,
    pub destination_addr: String,
    pub short_message: Vec<u8>,
}

/// Body of the response to a submitted message.
#[derive(Debug, Clone, PartialEq, Eq)]
pub struct SubmitSmResp {
    /// Empty where the message was refused.
    pub message_id: String,
}

/// A message that the gateway delivers to a client: a delivery receipt or a
/// mobile-originated message.
#[derive(Debug, Clone, PartialEq, Eq)]
pub struct DeliverSm {
    pub service_type: String,
    pub source_addr_ton: u8,
    pub source_addr_npi: u8,
    pub source_addr: String,
    pub dest_addr_ton: u8,
    pub dest_addr_npi: u8,
    pub destination_addr: String,
    pub esm_class: u8,
    pub protocol_id: u8,
    pub priority_flag: u8,
    pub schedule_delivery_time: String,
    pub validity_period: String,
    pub registered_delivery: u8,
    pub replace_if_present_flag: u8,
    pub data_coding: u8,
    pub sm_default_msg_id: u8,
    pub short_message: Vec<u8>,
}

/// Body of a command.
#[derive(Debug, Clone, PartialEq, Eq)]
pub enum Pdu {
    BindTransmitter(BindRequest),
    BindTransmitterResp(BindResponse),
    BindReceiver(BindRequest),
    BindReceiverResp(BindResponse),
    BindTransceiver(BindRequest),
    BindTransceiverResp(BindResponse),
    SubmitSm(SubmitSm),
    SubmitSmResp(SubmitSmResp),
    DeliverSm(DeliverSm),
    EnquireLink,
    EnquireLinkResp,
    Unbind,
    UnbindResp,
    /// Any other body; the engine does not answer it.
    Other,
}

/// One command: status, sequence number and body.
#[derive(Debug, Clone, PartialEq, Eq)]
pub struct SmppCommand {
    pub status: CommandStatus,
    pub sequence_number: u32,
    /// `None` where a command came without a body.
    pub pdu: Option<Pdu>,
}

pub struct BindRequestView {
    pub system_id: Seq<char>,
    pub password: Seq<char>,
    pub address_range: Seq<char>,
}

pub struct BindResponseView {
    pub system_id: Seq<char>,
    pub sc_interface_version: Option<InterfaceVersion>,
}

pub struct SubmitSmView {
    pub source_addr: Seq<char>,
    pub destination_addr: Seq<char>,
    pub short_message: Seq<u8>,
}

pub struct DeliverSmView {
    pub service_type: Seq<char>,
    pub source_addr_ton: u8,
    pub source_addr_npi: u8,
    pub source_addr: Seq<char>,
    pub dest_addr_ton: u8,
    pub dest_addr_npi: u8,
    pub destination_addr: Seq<char>,
    pub esm_class: u8,
    pub protocol_id: u8,
    pub priority_flag: u8,
    pub schedule_delivery_time: Seq<char>,
    pub validity_period: Seq<char>,
    pub registered_delivery: u8,
    pub replace_if_present_flag: u8,
    pub data_coding: u8,
    pub sm_default_msg_id: u8,
    pub short_message: Seq<u8>,
}

pub enum PduView {
    BindTransmitter(BindRequestView),
    BindTransmitterResp(BindResponseView),
    BindReceiver(BindRequestView),
    BindReceiverResp(BindResponseView),
    BindTransceiver(BindRequestView),
    BindTransceiverResp(BindResponseView),
    SubmitSm(SubmitSmView),
    SubmitSmResp { message_id: Seq<char> },
    DeliverSm(DeliverSmView),
    EnquireLink,
    EnquireLinkResp,
    Unbind,
    UnbindResp,
    Other,
}

pub struct SmppCommandView {
    pub status: CommandStatus,
    pub sequence_number: u32,
    pub pdu: Option<PduView>,
}

impl View for BindRequest {
    type V = BindRequestView;

    open spec fn view(&self) -> BindRequestView {
        BindRequestView {
            system_id: self.system_id@,
            password: self.password@,
            address_range: self.address_range@,
        }
    }
}

impl View for BindResponse {
    type V = BindResponseView;

    open spec fn view(&self) -> BindResponseView {
        BindResponseView {
            system_id: self.system_id@,
            sc_interface_version: self.sc_interface_version,
        }
    }
}

impl View for SubmitSm {
    type V = SubmitSmView;

    open spec fn view(&self) -> SubmitSmView {
        SubmitSmView {
            source_addr: self.source_addr@,
            destination_addr: self.destination_addr@,
            short_message: self.short_message@,
        }
    }
}

impl View for DeliverSm {
    type V = DeliverSmView;

    open spec fn view(&self) -> DeliverSmView {
        DeliverSmView {
            service_type: self.service_type@,
            source_addr_ton: self.source_addr_ton,
            source_addr_npi: self.source_addr_npi,
            source_addr: self.source_addr@,
            dest_addr_ton: self.dest_addr_ton,
            dest_addr_npi: self.dest_addr_npi,
            destination_addr: self.destination_addr@,
            esm_class: self.esm_class,
            protocol_id: self.protocol_id,
            priority_flag: self.priority_flag,
            schedule_delivery_time: self.schedule_delivery_time@,
            validity_period: self.validity_period@,
            registered_delivery: self.registered_delivery,
            replace_if_present_flag: self.replace_if_present_flag,
            data_coding: self.data_coding,
            sm_default_msg_id: self.sm_default_msg_id,
            short_message: self.short_message@,
        }
    }
}

impl View for Pdu {
    type V = PduView;

    open spec fn view(&self) -> PduView {
        match *self {
            Pdu::BindTransmitter(b) => PduView::BindTransmitter(b@),
            Pdu::BindTransmitterResp(b) => PduView::BindTransmitterResp(b@),
            Pdu::BindReceiver(b) => PduView::BindReceiver(b@),
            Pdu::BindReceiverResp(b) => PduView::BindReceiverResp(b@),
            Pdu::BindTransceiver(b) => PduView::BindTransceiver(b@),
            Pdu::BindTransceiverResp(b) => PduView::BindTransceiverResp(b@),
            Pdu::SubmitSm(s) => PduView::SubmitSm(s@),
            Pdu::SubmitSmResp(s) => PduView::SubmitSmResp { message_id: s.message_id@ },
            Pdu::DeliverSm(d) => PduView::DeliverSm(d@),
            Pdu::EnquireLink => PduView::EnquireLink,
            Pdu::EnquireLinkResp => PduView::EnquireLinkResp,
            Pdu::Unbind => PduView::Unbind,
            Pdu::UnbindResp => PduView::UnbindResp,
            Pdu::Other => PduView::Other,
        }
    }
}

/// The view of an optional body.
pub open spec fn option_pdu(pdu: Option<Pdu>) -> Option<PduView> {
    match pdu {
        Some(p) => Some(p@),
        None => None,
    }
}

impl View for SmppCommand {
    type V = SmppCommandView;

    open spec fn view(&self) -> SmppCommandView {
        SmppCommandView {
            status: self.status,
            sequence_number: self.sequence_number,
            pdu: option_pdu(self.pdu),
        }
    }
}

/// The view of an optional command.
pub open spec fn option_command(command: Option<SmppCommand>) -> Option<SmppCommandView> {
    match command {
        Some(c) => Some(c@),
        None => None,
    }
}

/// Longest address field, terminator included.
pub const ADDRESS_FIELD_MAX: usize = 21;

/// Longest short message, in octets.
pub const SHORT_MESSAGE_MAX: usize = 255;

/// Whether a text fits a C-octet string field of at most `max` octets, the
/// terminator among them: it is short enough, all ASCII, and has no NUL.
pub open spec fn fits_c_octet_string(text: Seq<char>, max: int) -> bool {
    &&& text.len() + 1 <= max
    &&& forall|i: int| 0 <= i < text.len() ==> 0 < (#[trigger] text[i]) as u32 <= 127
}

/// The text of an address field: the text itself where it fits the field,
/// and the empty text where it does not.
pub open spec fn address_or_empty(text: Seq<char>) -> Seq<char> {
    if fits_c_octet_string(text, ADDRESS_FIELD_MAX as int) {
        text
    } else {
        Seq::empty()
    }
}

/// The octets of a short message: the octets themselves where there are at
/// most 255, and none where there are more.
pub open spec fn payload_or_empty(octets: Seq<u8>) -> Seq<u8> {
    if octets.len() <= SHORT_MESSAGE_MAX {
        octets
    } else {
        Seq::empty()
    }
}

/// rusmpp's `COctetString::<1, 21>::from_str` and the `to_string` of what it
/// accepts. It accepts a text of at most 20 octets that is all ASCII and
/// holds no NUL, and keeps it as it is.
#[verifier::external_body]
fn address_field(text: &str) -> (r: Option<String>)
    ensures
        r is Some == fits_c_octet_string(text@, ADDRESS_FIELD_MAX as int),
        r matches Some(kept) ==> kept@ == text@,
{
    match COctetString::<1, 21>::from_str(text) {
        Ok(field) => Some(field.to_string()),
        Err(_) => None,
    }
}

/// rusmpp's `OctetString::<0, 255>::new` and the `bytes` of what it accepts.
/// It accepts at most 255 octets, and keeps them as they are.
#[verifier::external_body]
fn short_message_field(octets: &[u8]) -> (r: Option<Vec<u8>>)
    ensures
        r is Some == (octets@.len() <= SHORT_MESSAGE_MAX),
        r matches Some(kept) ==> kept@ == octets@,
{
    match OctetString::<0, 255>::new(octets) {
        Ok(field) => Some(field.bytes().to_vec()),
        Err(_) => None,
    }
}

/// An address as it goes into an address field.
pub fn sanitized_address(text: &str) -> (r: String)
    ensures
        r@ == address_or_empty(text@),
{
    match address_field(text) {
        Some(kept) => kept,
        None => String::new(),
    }
}

/// A payload as it goes into the short message field.
pub fn sanitized_payload(octets: &[u8]) -> (r: Vec<u8>)
    ensures
        r@ == payload_or_empty(octets@),
{
    match short_message_field(octets) {
        Some(kept) => kept,
        None => Vec::new(),
    }
}

/// A message for delivery to a client, from `source_addr` to
/// `destination_addr`, with every other field at its default: no service
/// type, unknown numbering, default class, protocol, priority and coding, no
/// schedule and no validity period.
pub open spec fn deliver_sm_view(
    source_addr: Seq<char>,
    destination_addr: Seq<char>,
    short_message: Seq<u8>,
) -> DeliverSmView {
    DeliverSmView {
        service_type: Seq::empty(),
        source_addr_ton: 0,
        source_addr_npi: 0,
        source_addr,
        dest_addr_ton: 0,
        dest_addr_npi: 0,
        destination_addr,
        esm_class: 0,
        protocol_id: 0,
        priority_flag: 0,
        schedule_delivery_time: Seq::empty(),
        validity_period: Seq::empty(),
        registered_delivery: 0,
        replace_if_present_flag: 0,
        data_coding: 0,
        sm_default_msg_id: 0,
        short_message,
    }
}

/// The command that the gateway sends on its own to deliver a message:
/// status `ESME_ROK`, sequence number 0.
pub open spec fn deliver_command_view(
    source_addr: Seq<char>,
    destination_addr: Seq<char>,
    short_message: Seq<u8>,
) -> SmppCommandView {
    SmppCommandView {
        status: CommandStatus::EsmeRok,
        sequence_number: 0,
        pdu: Some(PduView::DeliverSm(deliver_sm_view(source_addr, destination_addr, short_message))),
    }
}

/// Builds the command that delivers a message.
pub fn deliver_command(source_addr: String, destination_addr: String, short_message: Vec<u8>) -> (r:
    SmppCommand)
    ensures
        r@ == deliver_command_view(source_addr@, destination_addr@, short_message@),
{
    SmppCommand {
        status: CommandStatus::EsmeRok,
        sequence_number: 0,
        pdu: Some(
            Pdu::DeliverSm(
                DeliverSm {
                    service_type: String::new(),
                    source_addr_ton: 0,
                    source_addr_npi: 0,
                    source_addr,
                    dest_addr_ton: 0,
                    dest_addr_npi: 0,
                    destination_addr,
                    esm_class: 0,
                    protocol_id: 0,
                    priority_flag: 0,
                    schedule_delivery_time: String::new(),
                    validity_period: String::new(),
                    registered_delivery: 0,
                    replace_if_present_flag: 0,
                    data_coding: 0,
                    sm_default_msg_id: 0,
                    short_message,
                },
            ),
        ),
    }
}

} // verus!
