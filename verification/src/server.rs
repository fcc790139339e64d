//! The server: what it advertises and how it accepts connections.

use crate::advertisement::{
    advert_header, ble_advertisement_header, build_endpoint_info, endpoint_info, fits_fast_mode,
    gen_device_token, inner_advert, inner_advertisement_with_hash, law_endpoint_info_bytes,
    law_endpoint_info_forces_regular_mode, law_header_bytes, law_header_layout, law_inner_layout,
    law_outer_layout, outer_advert,
    outer_advertisement_with_hash, token_for, BLE_ADVERTISEMENT_HEADER_LEN,
    FAST_MAX_ENDPOINT_INFO_LEN, HEADER_BYTE0, OUTER_REGULAR_BYTE0,
};
use crate::bytes::be16_value;
use crate::digest::{advertisement_hash, service_hash, service_id_hash, sha256};
use vstd::prelude::*;
use vstd::slice::slice_to_vec;
use vstd::utf8::{encode_utf8, is_ascii_chars_encode_utf8};

verus! {

/// Device type of a laptop.
pub const DEVICE_TYPE_LAPTOP: u8 = 3;

/// Name under which the endpoint shows.
pub const DEVICE_NAME: &'static str = "RQS-Linux";

/// Local name in the advertisement.
pub const LOCAL_NAME: &'static str = "rqs";

/// UUID of the GATT characteristic that serves the first advertisement slot.
pub const SLOT0_UUID: &'static str = "00000000-0000-3000-8000-000000000000";

/// Short UUID of the service under which the header is advertised.
pub const SERVICE_UUID16: u16 = 0xFEF3;

/// Short UUID of the service under which the attention beacon is advertised.
pub const BEACON_UUID16: u16 = 0xFE2C;

/// Service data of the attention beacon.
pub const LEGACY_FE2C_SERVICE_DATA: [u8; 24] = [
    252, 18, 142, 1, 66, 0, 0, 0, 0, 0, 0, 0, 0, 0, 191, 45, 91, 160, 225, 216, 117, 36, 202, 0,
];

/// How long to wait, in milliseconds, after a connection could not be accepted.
pub const ACCEPT_RETRY_MILLIS: u64 = 500;

/// The Bluetooth base UUID, into whose top 32 bits a short UUID goes.
pub const BASE_UUID: u128 = 0x0000_0000_0000_1000_8000_0080_5F9B_34FB;

/// The error of `uuid::Uuid::parse_str`, of which nothing is known.
#[verifier::external_type_specification]
#[verifier::external_body]
pub struct ExUuidError(uuid::Error);

/// The UUID that a text spells, where it spells one.
pub uninterp spec fn uuid_spelled(text: Seq<char>) -> Option<u128>;

/// Calls `uuid::Uuid::parse_str`. Claims that whether the text is a UUID, and
/// which, depends on the text alone; this is named `uuid_spelled`. Nothing is
/// claimed of what the error holds.
#[verifier::external_body]
fn parse_uuid(text: &str) -> (parsed: Result<u128, uuid::Error>)
    ensures
        match parsed {
            Ok(uuid) => uuid_spelled(text@) == Some(uuid),
            Err(_) => uuid_spelled(text@) is None,
        },
{
    uuid::Uuid::parse_str(text).map(|parsed| parsed.as_u128())
}

/// Why the server cannot be set up.
#[derive(Debug, Clone, Copy, PartialEq, Eq)]
pub enum SetupError {
    /// The characteristic's UUID is not spelled as one.
    InvalidUuid,
}

/// The UUID that a text spells.
pub fn characteristic_uuid(text: &str) -> (uuid: Result<u128, SetupError>)
    ensures
        uuid == (match uuid_spelled(text@) {
            Some(u) => Ok(u),
            None => Err(SetupError::InvalidUuid),
        }),
{
    match parse_uuid(text) {
        Ok(uuid) => Ok(uuid),
        Err(_) => Err(SetupError::InvalidUuid),
    }
}

/// The UUID of the characteristic that serves the first advertisement slot.
pub fn slot0_uuid() -> (uuid: Result<u128, SetupError>)
    ensures
        uuid == (match uuid_spelled(SLOT0_UUID@) {
            Some(u) => Ok(u),
            None => Err(SetupError::InvalidUuid),
        }),
{
    characteristic_uuid(SLOT0_UUID)
}

/// The long form of a short UUID: the Bluetooth base UUID with the short one in
/// its top 32 bits.
pub open spec fn long_uuid(short: u16) -> int {
    BASE_UUID + short * 0x1_0000_0000_0000_0000_0000_0000
}

/// The long form of a short UUID.
pub fn uuid_from_u16(short: u16) -> (uuid: u128)
    ensures
        uuid == long_uuid(short),
{
    BASE_UUID + short as u128 * 0x1_0000_0000_0000_0000_0000_0000
}

/// What the server advertises.
#[derive(Debug, Clone, PartialEq, Eq)]
pub struct Advert {
    pub fast: bool,
    pub inner: Vec<u8>,
    /// Served by the first GATT slot, and sent to peers that ask for it.
    pub outer: Vec<u8>,
}

impl Advert {
    /// This is the advertisement of an endpoint with the given parts: fast just
    /// when the endpoint info is short enough.
    pub open spec fn made_of(
        self,
        hash: Seq<u8>,
        endpoint_id: Seq<u8>,
        info: Seq<u8>,
        device_token: Seq<u8>,
    ) -> bool {
        &&& self.fast == (info.len() <= FAST_MAX_ENDPOINT_INFO_LEN)
        &&& self.inner@ == inner_advert(hash, endpoint_id, info, self.fast)
        &&& self.outer@ == outer_advert(hash, self.inner@, self.fast, device_token)
    }
}

/// Builds the advertisement of an endpoint from its parts.
pub fn advert_from(
    hash: [u8; 3],
    endpoint_id: [u8; 4],
    info: &[u8],
    device_token: [u8; 2],
) -> (advert: Advert)
    ensures
        advert.made_of(hash@, endpoint_id@, info@, device_token@),
{
    let fast: bool = fits_fast_mode(info);
    let inner: Vec<u8> = inner_advertisement_with_hash(hash, endpoint_id, info, fast);
    let outer: Vec<u8> = outer_advertisement_with_hash(hash, inner.as_slice(), fast, device_token);
    Advert { fast, inner, outer }
}

/// Data to advertise under a service.
#[derive(Debug, Clone, PartialEq, Eq)]
pub struct ServiceData {
    pub uuid: u128,
    pub data: Vec<u8>,
}

/// The header to advertise for an outer advertisement and a PSM.
pub open spec fn header_for(outer: Seq<u8>, psm: u16) -> Seq<u8> {
    advert_header(sha256(outer).take(4), psm)
}

/// This header has the fixed length and first byte, and names the outer
/// advertisement by its hash and the listener by its PSM.
pub open spec fn is_header_for(header: Seq<u8>, outer: Seq<u8>, psm: u16) -> bool {
    &&& header.len() == BLE_ADVERTISEMENT_HEADER_LEN
    &&& header[0] == HEADER_BYTE0
    &&& forall|i: int| 1 <= i < 11 ==> header[i] == 0xFF
    &&& header.subrange(11, 15) == sha256(outer).take(4)
    &&& be16_value(header[15], header[16]) == psm
}

/// Encodes the header to advertise for an outer advertisement and a PSM.
pub fn header_of(outer: &[u8], psm: u16) -> (header: Vec<u8>)
    ensures
        header@ == header_for(outer@, psm),
        is_header_for(header@, outer@, psm),
{
    let hash: [u8; 4] = advertisement_hash(outer);
    let header: [u8; BLE_ADVERTISEMENT_HEADER_LEN] = ble_advertisement_header(hash, psm);
    proof {
        law_header_layout(hash, psm);
    }
    slice_to_vec(header.as_slice())
}

/// These are the service data for an outer advertisement and a PSM: the header
/// under the service, the attention beacon beside it, and nothing else.
pub open spec fn is_service_data(entries: Seq<ServiceData>, outer: Seq<u8>, psm: u16) -> bool {
    &&& entries.len() == 2
    &&& entries[0].uuid == long_uuid(SERVICE_UUID16)
    &&& entries[0].data@ == header_for(outer, psm)
    &&& is_header_for(entries[0].data@, outer, psm)
    &&& entries[1].uuid == long_uuid(BEACON_UUID16)
    &&& entries[1].data@ == LEGACY_FE2C_SERVICE_DATA@
}

/// The service data to advertise: the header under the service, and the attention
/// beacon beside it.
pub fn service_data(outer: &[u8], psm: u16) -> (entries: Vec<ServiceData>)
    ensures
        is_service_data(entries@, outer@, psm),
{
    let beacon: [u8; 24] = LEGACY_FE2C_SERVICE_DATA;
    let mut entries: Vec<ServiceData> = Vec::new();
    entries.push(
        ServiceData { uuid: uuid_from_u16(SERVICE_UUID16), data: header_of(outer, psm) },
    );
    entries.push(
        ServiceData {
            uuid: uuid_from_u16(BEACON_UUID16),
            data: slice_to_vec(beacon.as_slice()),
        },
    );
    entries
}

/// A BLE receive medium for one endpoint.
#[derive(Debug, Clone, PartialEq, Eq)]
pub struct BleServer {
    endpoint_id: [u8; 4],
}

impl BleServer {
    /// The endpoint id.
    pub closed spec fn id(self) -> Seq<u8> {
        self.endpoint_id@
    }

    /// A server for the endpoint with the given id.
    pub fn new(endpoint_id: [u8; 4]) -> (server: Self)
        ensures
            server.id() == endpoint_id@,
    {
        BleServer { endpoint_id }
    }

    /// The endpoint id.
    pub fn endpoint_id(&self) -> (id: [u8; 4])
        ensures
            id@ == self.id(),
    {
        self.endpoint_id
    }

    /// Builds the advertisement, with a random salt and a random device token. It
    /// is never fast: the endpoint info is too long for that.
    pub fn advertisement(&self) -> (advert: Advert)
        ensures
            !advert.fast,
            advert.inner@.len() == 44,
            advert.outer@.len() == 54,
            advert.outer@[0] == OUTER_REGULAR_BYTE0,
            advert.outer@.subrange(12, 16) == self.id(),
            exists|hash: [u8; 3], salt: [u8; 16], token: [u8; 2], n: u32|
                {
                    &&& hash@ == service_hash()
                    &&& token@ == #[trigger] token_for(n)
                    &&& #[trigger] advert.made_of(
                        hash@,
                        self.id(),
                        server_info(salt),
                        token@,
                    )
                },
    {
        let info: Vec<u8> = build_endpoint_info(DEVICE_TYPE_LAPTOP, DEVICE_NAME);
        let token: [u8; 2] = gen_device_token();
        let hash: [u8; 3] = service_id_hash();
        let advert: Advert = advert_from(hash, self.endpoint_id, info.as_slice(), token);
        proof {
            let salt = choose|salt: [u8; 16]|
                info@ == #[trigger] endpoint_info(
                    DEVICE_TYPE_LAPTOP,
                    salt@,
                    encode_utf8(DEVICE_NAME@),
                );
            assert(advert.made_of(hash@, self.id(), server_info(salt), token@));
            law_server_advertisement_layout(advert, hash, self.endpoint_id, salt, token);
        }
        advert
    }
}

/// The endpoint info of a server, for a salt.
pub open spec fn server_info(salt: [u8; 16]) -> Seq<u8> {
    endpoint_info(DEVICE_TYPE_LAPTOP, salt@, encode_utf8(DEVICE_NAME@))
}

/// Whatever the salt and the token, the advertisement is regular, has one length,
/// and carries the endpoint id at one place.
pub proof fn law_server_advertisement_layout(
    advert: Advert,
    hash: [u8; 3],
    endpoint_id: [u8; 4],
    salt: [u8; 16],
    token: [u8; 2],
)
    requires
        advert.made_of(hash@, endpoint_id@, server_info(salt), token@),
    ensures
        !advert.fast,
        advert.inner@.len() == 44,
        advert.outer@.len() == 54,
        advert.outer@[0] == OUTER_REGULAR_BYTE0,
        advert.outer@.subrange(12, 16) == endpoint_id@,
{
    let name = encode_utf8(DEVICE_NAME@);
    assert(name.len() == 9) by {
        reveal_strlit("RQS-Linux");
        is_ascii_chars_encode_utf8(DEVICE_NAME@);
    }
    law_endpoint_info_forces_regular_mode(DEVICE_TYPE_LAPTOP, salt, name);
    assert(advert.inner@.subrange(4, 8) =~= endpoint_id@);
    assert(advert.outer@.subrange(12, 16) =~= endpoint_id@);
}

/// What is announced once the listener is bound.
#[derive(Debug, Clone, PartialEq, Eq)]
pub struct Announcement {
    /// What a read of the first GATT slot returns, and what each connection sends
    /// to a peer that asks for the advertisement.
    pub outer: Vec<u8>,
    /// What is advertised under each service.
    pub service_data: Vec<ServiceData>,
}

/// Announces an advertisement and the PSM of the listener.
pub fn announce(advert: Advert, psm: u16) -> (announcement: Announcement)
    ensures
        announcement.outer@ == advert.outer@,
        is_service_data(announcement.service_data@, advert.outer@, psm),
{
    let service_data: Vec<ServiceData> = service_data(advert.outer.as_slice(), psm);
    Announcement { outer: advert.outer, service_data }
}

/// A stage of setting the server up.
#[derive(Debug, Clone, Copy, PartialEq, Eq)]
pub enum SetupStage {
    /// Bring up the adapter.
    Adapter,
    /// Bind the L2CAP listener, whose PSM the header names.
    Listener,
    /// Register the GATT server that serves the advertisement.
    GattServer,
    /// Advertise.
    Advertising,
    /// Accept connections.
    Accepting,
}

/// The stage after one that succeeded or failed. A failure is the end, and so is
/// having accepted connections until told to stop.
pub open spec fn setup_after(stage: SetupStage, succeeded: bool) -> Option<SetupStage> {
    if !succeeded {
        None
    } else {
        match stage {
            SetupStage::Adapter => Some(SetupStage::Listener),
            SetupStage::Listener => Some(SetupStage::GattServer),
            SetupStage::GattServer => Some(SetupStage::Advertising),
            SetupStage::Advertising => Some(SetupStage::Accepting),
            SetupStage::Accepting => None,
        }
    }
}

/// The first stage of setting the server up.
pub fn first_setup_stage() -> (stage: SetupStage)
    ensures
        stage == SetupStage::Adapter,
{
    SetupStage::Adapter
}

/// Decides what follows a stage of setting the server up.
pub fn next_setup_stage(stage: SetupStage, succeeded: bool) -> (next: Option<SetupStage>)
    ensures
        next == setup_after(stage, succeeded),
{
    if !succeeded {
        return None;
    }
    match stage {
        SetupStage::Adapter => Some(SetupStage::Listener),
        SetupStage::Listener => Some(SetupStage::GattServer),
        SetupStage::GattServer => Some(SetupStage::Advertising),
        SetupStage::Advertising => Some(SetupStage::Accepting),
        SetupStage::Accepting => None,
    }
}

/// Nothing is advertised before the GATT server is registered, which is not done
/// before the listener is bound; connections are accepted only once all of it
/// stands.
pub proof fn law_setup_order(stage: SetupStage, succeeded: bool)
    ensures
        setup_after(stage, succeeded) == Some(SetupStage::GattServer) <==> stage
            == SetupStage::Listener && succeeded,
        setup_after(stage, succeeded) == Some(SetupStage::Advertising) <==> stage
            == SetupStage::GattServer && succeeded,
        setup_after(stage, succeeded) == Some(SetupStage::Accepting) <==> stage
            == SetupStage::Advertising && succeeded,
        setup_after(stage, succeeded) != Some(SetupStage::Adapter),
{
}

/// What came while waiting for a connection.
#[derive(Debug, Clone, Copy, PartialEq, Eq)]
pub enum AcceptEvent {
    Cancelled,
    Accepted,
    Failed,
}

/// What the accept loop does.
#[derive(Debug, Clone, Copy, PartialEq, Eq)]
pub enum AcceptStep {
    /// Stop accepting.
    Stop,
    /// Serve the connection, and go on accepting.
    Serve,
    /// Wait so many milliseconds, and go on accepting.
    RetryAfter { millis: u64 },
}

/// What the accept loop does about an event.
pub open spec fn accept_outcome(event: AcceptEvent) -> AcceptStep {
    match event {
        AcceptEvent::Cancelled => AcceptStep::Stop,
        AcceptEvent::Accepted => AcceptStep::Serve,
        AcceptEvent::Failed => AcceptStep::RetryAfter { millis: ACCEPT_RETRY_MILLIS },
    }
}

/// Decides what the accept loop does.
pub fn accept_step(event: AcceptEvent) -> (step: AcceptStep)
    ensures
        step == (match event {
            AcceptEvent::Cancelled => AcceptStep::Stop,
            AcceptEvent::Accepted => AcceptStep::Serve,
            AcceptEvent::Failed => AcceptStep::RetryAfter { millis: ACCEPT_RETRY_MILLIS },
        }),
        step == accept_outcome(event),
{
    match event {
        AcceptEvent::Cancelled => AcceptStep::Stop,
        AcceptEvent::Accepted => AcceptStep::Serve,
        AcceptEvent::Failed => AcceptStep::RetryAfter { millis: ACCEPT_RETRY_MILLIS },
    }
}

/// A short UUID stands in the long form between the zeros above it and the 96 low
/// bits, which are those of the Bluetooth base UUID.
pub proof fn law_long_uuid(short: u16)
    ensures
        long_uuid(short) / 0x1_0000_0000_0000_0000_0000_0000 == short,
        long_uuid(short) % 0x1_0000_0000_0000_0000_0000_0000 == 0x1000_8000_0080_5F9B_34FB,
{
}

/// An advertisement is fast just when the endpoint info has at most 17 bytes.
/// Either way the endpoint id and the info are at one place in it, and the token at
/// its end.
pub proof fn law_advert_modes(
    advert: Advert,
    hash: [u8; 3],
    endpoint_id: [u8; 4],
    info: Seq<u8>,
    device_token: [u8; 2],
)
    requires
        advert.made_of(hash@, endpoint_id@, info, device_token@),
    ensures
        advert.fast <==> info.len() <= 17,
        advert.fast ==> {
            &&& advert.outer@.len() == 10 + info.len()
            &&& advert.outer@[0] == 0x4A
            &&& advert.outer@[1] == 6 + info.len()
            &&& advert.outer@[2] == 0x23
            &&& advert.outer@.subrange(3, 7) == endpoint_id@
            &&& advert.outer@[7] == info.len()
            &&& advert.outer@.subrange(8, 8 + info.len() as int) == info
        },
        !advert.fast ==> {
            &&& advert.outer@.len() == 27 + info.len()
            &&& advert.outer@[0] == 0x48
            &&& advert.outer@.subrange(1, 4) == hash@
            &&& advert.outer@[8] == 0x23
            &&& advert.outer@.subrange(9, 12) == hash@
            &&& advert.outer@.subrange(12, 16) == endpoint_id@
            &&& advert.outer@[16] == info.len() % 256
            &&& advert.outer@.subrange(17, 17 + info.len() as int) == info
            &&& forall|i: int| 17 + info.len() <= i < 25 + info.len() ==> advert.outer@[i] == 0
        },
        advert.outer@.skip(advert.outer@.len() - 2) == device_token@,
{
    law_inner_layout(hash, endpoint_id, info);
    law_outer_layout(hash, advert.inner@, device_token);
    let inner = advert.inner@;
    let outer = advert.outer@;
    if advert.fast {
        assert(outer.subrange(2, 2 + inner.len() as int)[0] == inner[0]);
        assert(outer.subrange(2, 2 + inner.len() as int)[5] == inner[5]);
        assert(outer.subrange(3, 7) =~= inner.subrange(1, 5));
        assert(outer.subrange(8, 8 + info.len() as int) =~= inner.skip(6));
    } else {
        let part = outer.subrange(8, 8 + inner.len() as int);
        assert(part[0] == outer[8]);
        assert(part[8] == outer[16]);
        assert(outer.subrange(9, 12) =~= inner.subrange(1, 4));
        assert(outer.subrange(12, 16) =~= inner.subrange(4, 8));
        assert(outer.subrange(17, 17 + info.len() as int) =~= inner.subrange(
            9,
            9 + info.len() as int,
        ));
        assert forall|i: int| 17 + info.len() <= i < 25 + info.len() implies outer[i] == 0 by {
            assert(part[i - 8] == outer[i]);
            assert(inner[i - 8] == 0);
        }
    }
}

/// The bytes of the endpoint info: a laptop with the name `RQS-Linux`.
pub proof fn law_server_info(salt: [u8; 16])
    ensures
        server_info(salt) == seq![6u8] + salt@ + seq![
            9u8,
            82u8,
            81u8,
            83u8,
            45u8,
            76u8,
            105u8,
            110u8,
            117u8,
            120u8,
        ],
{
    let name = encode_utf8(DEVICE_NAME@);
    let spelled = seq![82u8, 81u8, 83u8, 45u8, 76u8, 105u8, 110u8, 117u8, 120u8];
    assert(name =~= spelled) by {
        reveal_strlit("RQS-Linux");
        is_ascii_chars_encode_utf8(DEVICE_NAME@);
    }
    law_endpoint_info_bytes(DEVICE_TYPE_LAPTOP, salt, name);
    assert(server_info(salt) =~= seq![6u8] + salt@ + seq![
        9u8,
        82u8,
        81u8,
        83u8,
        45u8,
        76u8,
        105u8,
        110u8,
        117u8,
        120u8,
    ]);
}

/// A header names the outer advertisement by the first four bytes of its digest,
/// and the listener by its PSM, the higher byte first.
pub proof fn law_header(outer: Seq<u8>, psm: u16)
    ensures
        sha256(outer).len() == 32 ==> {
            let header = header_for(outer, psm);
            &&& is_header_for(header, outer, psm)
            &&& header.len() == 17
            &&& header[0] == 0x41
            &&& forall|i: int| 1 <= i < 11 ==> header[i] == 0xFF
            &&& forall|i: int| 0 <= i < 4 ==> header[11 + i] == #[trigger] sha256(outer)[i]
            &&& 256 * header[15] + header[16] == psm
        },
{
    let digest = sha256(outer);
    if digest.len() == 32 {
        let four: [u8; 4] = [digest[0], digest[1], digest[2], digest[3]];
        assert(four@ =~= digest.take(4));
        law_header_bytes(four, psm);
        law_header_layout(four, psm);
        let header = header_for(outer, psm);
        assert forall|i: int| 0 <= i < 4 implies header[11 + i] == #[trigger] digest[i] by {
            assert(header.subrange(11, 15)[i] == header[11 + i]);
        }
    }
}

/// Two entries are advertised: the header under 0xFEF3, and under 0xFE2C the
/// beacon, which is the same whatever the advertisement and the PSM.
pub proof fn law_service_data(entries: Seq<ServiceData>, outer: Seq<u8>, psm: u16)
    requires
        is_service_data(entries, outer, psm),
    ensures
        entries.len() == 2,
        entries[0].uuid == 0x0000_FEF3_0000_1000_8000_0080_5F9B_34FB,
        entries[0].data@ == header_for(outer, psm),
        entries[1].uuid == 0x0000_FE2C_0000_1000_8000_0080_5F9B_34FB,
        entries[1].data@ == seq![
            252u8,
            18u8,
            142u8,
            1u8,
            66u8,
            0u8,
            0u8,
            0u8,
            0u8,
            0u8,
            0u8,
            0u8,
            0u8,
            0u8,
            191u8,
            45u8,
            91u8,
            160u8,
            225u8,
            216u8,
            117u8,
            36u8,
            202u8,
            0u8,
        ],
{
}

/// The stages that follow each other, from the adapter to accepting connections,
/// after which nothing follows; nor does anything follow a failure.
pub proof fn law_setup_stages(stage: SetupStage)
    ensures
        setup_after(stage, false) is None,
        setup_after(SetupStage::Adapter, true) == Some(SetupStage::Listener),
        setup_after(SetupStage::Listener, true) == Some(SetupStage::GattServer),
        setup_after(SetupStage::GattServer, true) == Some(SetupStage::Advertising),
        setup_after(SetupStage::Advertising, true) == Some(SetupStage::Accepting),
        setup_after(SetupStage::Accepting, true) is None,
{
}

/// The texts that the server shows, as characters.
pub proof fn law_texts()
    ensures
        DEVICE_NAME@ == seq!['R', 'Q', 'S', '-', 'L', 'i', 'n', 'u', 'x'],
        LOCAL_NAME@ == seq!['r', 'q', 's'],
        SLOT0_UUID@.len() == 36,
        forall|i: int|
            0 <= i < 36 ==> #[trigger] SLOT0_UUID@[i] == (if i == 8 || i == 13 || i == 18 || i
                == 23 {
                '-'
            } else if i == 14 {
                '3'
            } else if i == 19 {
                '8'
            } else {
                '0'
            }),
{
    reveal_strlit("RQS-Linux");
    reveal_strlit("rqs");
    reveal_strlit("00000000-0000-3000-8000-000000000000");
}

/// The accept loop stops just when it is cancelled, and serves just what was
/// accepted; after a failure it waits half a second and goes on.
pub proof fn law_accepting(event: AcceptEvent)
    ensures
        accept_outcome(event) == AcceptStep::Stop <==> event == AcceptEvent::Cancelled,
        accept_outcome(event) == AcceptStep::Serve <==> event == AcceptEvent::Accepted,
        accept_outcome(event) == (AcceptStep::RetryAfter { millis: 500 }) <==> event
            == AcceptEvent::Failed,
{
}

} // verus!
