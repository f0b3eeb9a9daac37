//! What the event information tables of a transport stream say about one
//! programme.
//!
//! A transport stream is a run of packets of 188 bytes, each led by the
//! byte `0x47`. The packets of one packet identifier carry the sections of
//! the event information table. The section with number 0 of a service
//! lists the event that is on air, the section with number 1 the event that
//! follows. The parser takes the stream in chunks cut at arbitrary places,
//! puts packets and sections together again, and remembers for one
//! programme whether the last such sections of its service listed it.

use vstd::prelude::*;
use crate::recording_pool::RecordingTaskDescription;

verus! {

/// Bytes in a packet of the transport stream.
pub const PACKET_SIZE: usize = 188;

/// The byte that leads every packet.
pub const SYNC_BYTE: u8 = 0x47;

/// The packet identifier that carries the event information table.
pub const EIT_PID: u16 = 0x0012;

/// The table that lists the present and the following event of the
/// services of the stream's own network.
pub const TABLE_ID: u8 = 0x4E;

/// The byte that fills a packet after its last section.
pub const STUFFING: u8 = 0xFF;

/// Bytes that the parser holds at most between two chunks.
pub const BUFFER_SIZE: usize = 8192;

/// What the stream currently signals about the programme of interest.
#[derive(Debug, Clone, Copy, PartialEq, Eq, Structural)]
pub enum EitDetected {
    /// The programme is the present event of its service: it is on air.
    FoundInP,
    /// The programme is the following event of its service.
    FoundInF,
    /// The stream mentions the programme as neither.
    NotFound,
}

/// The programme that the parser looks for, as the tables name it.
#[derive(Debug, Clone, Copy, PartialEq, Eq, Structural)]
pub struct Target {
    pub network_id: i32,
    pub service_id: i32,
    pub event_id: i32,
}

/// One step of the checksum's shift register.
pub open spec fn crc_shift(crc: u32) -> u32 {
    if crc & 0x8000_0000u32 != 0 {
        (crc << 1u32) ^ 0x04C1_1DB7u32
    } else {
        crc << 1u32
    }
}

/// The checksum's register after one more byte.
pub open spec fn crc_byte(crc: u32, byte: u8) -> u32 {
    let c0 = crc ^ ((byte as u32) << 24u32);
    let c1 = crc_shift(c0);
    let c2 = crc_shift(c1);
    let c3 = crc_shift(c2);
    let c4 = crc_shift(c3);
    let c5 = crc_shift(c4);
    let c6 = crc_shift(c5);
    let c7 = crc_shift(c6);
    crc_shift(c7)
}

/// The checksum of the transport stream over `data`: the cyclic redundancy
/// check with the polynomial `0x04C11DB7`, begun at all ones, most
/// significant bit first. Over a sound section, its own checksum included,
/// it is zero.
pub open spec fn crc_of(data: Seq<u8>) -> u32
    decreases data.len(),
{
    if data.len() == 0 {
        0xFFFF_FFFFu32
    } else {
        crc_byte(crc_of(data.drop_last()), data.last())
    }
}

/// The packet identifier of a packet.
pub open spec fn pid(packet: Seq<u8>) -> int {
    (packet[1] % 32) * 256 + packet[2]
}

/// Whether the packet is marked as damaged in transport.
pub open spec fn has_transport_error(packet: Seq<u8>) -> bool {
    packet[1] >= 128
}

/// Whether a section starts in the packet.
pub open spec fn starts_unit(packet: Seq<u8>) -> bool {
    (packet[1] / 64) % 2 == 1
}

/// Whether the packet has an adaptation field before its payload.
pub open spec fn has_adaptation(packet: Seq<u8>) -> bool {
    (packet[3] / 32) % 2 == 1
}

/// Whether the packet has a payload.
pub open spec fn has_payload(packet: Seq<u8>) -> bool {
    (packet[3] / 16) % 2 == 1
}

/// The continuity counter of the packet.
pub open spec fn continuity(packet: Seq<u8>) -> u8 {
    packet[3] % 16
}

/// Where the payload of the packet begins.
pub open spec fn payload_offset(packet: Seq<u8>) -> int {
    if has_adaptation(packet) {
        5 + packet[4]
    } else {
        4
    }
}

/// The number of bytes of a section, from its first three bytes.
pub open spec fn section_size(data: Seq<u8>) -> int {
    3 + (data[1] % 16) * 256 + data[2]
}

/// Whether `data` begins with a whole section.
pub open spec fn is_whole(data: Seq<u8>) -> bool {
    data.len() >= 3 && data.len() >= section_size(data)
}

/// Whether the loop of events `events` of a section lists the event
/// `event_id`. Each event has twelve bytes, the first two of which are its
/// number and the last two of which give the length of the descriptors that
/// follow it.
pub open spec fn lists_event(events: Seq<u8>, event_id: i32) -> bool
    decreases events.len(),
{
    if events.len() < 12 {
        false
    } else if events[0] * 256 + events[1] == event_id {
        true
    } else {
        let next = 12 + (events[10] % 16) * 256 + events[11];
        if next > events.len() {
            false
        } else {
            lists_event(events.skip(next), event_id)
        }
    }
}

/// Whether `section` is a sound section of the table of present and
/// following events, in force now, for the service of `target`.
pub open spec fn concerns(section: Seq<u8>, target: Target) -> bool {
    &&& section.len() >= 18
    &&& section[0] == TABLE_ID
    &&& section[1] >= 128
    &&& section[5] % 2 == 1
    &&& section[3] * 256 + section[4] == target.service_id
    &&& section[10] * 256 + section[11] == target.network_id
    &&& crc_of(section) == 0
}

/// The parser as a plain value.
pub struct EitView {
    /// The bytes at the end of the stream so far that do not make up a whole
    /// packet yet.
    pub packet: Seq<u8>,
    /// The bytes gathered of a section that has begun and is not whole yet.
    pub section: Option<Seq<u8>>,
    /// The continuity counter of the last packet that carried the table.
    pub counter: Option<u8>,
    /// The programme that the parser was last asked about.
    pub target: Option<Target>,
    /// Whether the last section of present events of the service listed the
    /// programme.
    pub present: bool,
    /// Whether the last section of following events of the service listed
    /// the programme.
    pub following: bool,
}

impl EitView {
    /// The parser before the first byte.
    pub open spec fn fresh() -> EitView {
        EitView {
            packet: Seq::empty(),
            section: None,
            counter: None,
            target: None,
            present: false,
            following: false,
        }
    }

    /// What every parser satisfies: it holds less than a packet of the
    /// stream and less than a section, which is well within its bound.
    pub open spec fn wf(self) -> bool {
        &&& self.packet.len() < PACKET_SIZE
        &&& self.section matches Some(part) ==> 0 < part.len() < 4098 && !is_whole(part)
    }

    /// How many bytes of the stream the parser holds.
    pub open spec fn held(self) -> nat {
        self.packet.len() + match self.section {
            Some(part) => part.len(),
            None => 0,
        }
    }

    /// What the parser signals.
    pub open spec fn detected(self) -> EitDetected {
        if self.present {
            EitDetected::FoundInP
        } else if self.following {
            EitDetected::FoundInF
        } else {
            EitDetected::NotFound
        }
    }

    /// The parser without the section that it was putting together.
    pub open spec fn dropped(self) -> EitView {
        EitView { section: None, ..self }
    }

    /// The parser after it lost its place in the stream.
    pub open spec fn lost_sync(self) -> EitView {
        EitView { section: None, counter: None, ..self }
    }

    /// The parser after it read the whole section `section`. A section that
    /// concerns the programme's service settles whether the programme is
    /// present, or following; any other section, and any section that is
    /// damaged, changes nothing.
    pub open spec fn noted(self, section: Seq<u8>, target: Target) -> EitView {
        if concerns(section, target) {
            let listed = lists_event(section.subrange(14, section.len() - 4), target.event_id);
            if section[6] == 0 {
                EitView { present: listed, ..self }
            } else if section[6] == 1 {
                EitView { following: listed, ..self }
            } else {
                self
            }
        } else {
            self
        }
    }

    /// The parser after it read `data`, which begins where a section
    /// begins: every whole section is read, stuffing ends the packet, and
    /// the beginning of a section that goes on in a later packet is kept.
    pub open spec fn gathered(self, data: Seq<u8>, target: Target) -> EitView
        decreases data.len(),
    {
        if data.len() == 0 || data[0] == STUFFING {
            self.dropped()
        } else if !is_whole(data) {
            EitView { section: Some(data), ..self }
        } else {
            self.noted(data.take(section_size(data)), target).gathered(
                data.skip(section_size(data)),
                target,
            )
        }
    }

    /// The parser after a payload in which no section starts: the payload
    /// goes on with the section that is being put together, if there is
    /// one.
    pub open spec fn continued(self, data: Seq<u8>, target: Target) -> EitView {
        match self.section {
            None => self,
            Some(part) => {
                let joined = part + data;
                if is_whole(joined) {
                    self.noted(joined.take(section_size(joined)), target).dropped()
                } else {
                    EitView { section: Some(joined), ..self }
                }
            },
        }
    }

    /// The parser after a payload in which a section starts. The first byte
    /// of the payload says how many bytes still belong to the section
    /// before.
    pub open spec fn started(self, payload: Seq<u8>, target: Target) -> EitView {
        if payload.len() == 0 || 1 + payload[0] > payload.len() {
            self.dropped()
        } else {
            let pointer = payload[0] as int;
            let ended = EitView { section: None, ..self.continued(payload.subrange(1, 1 + pointer), target) };
            ended.gathered(payload.skip(1 + pointer), target)
        }
    }

    /// The parser after one packet of the stream. Packets of other packet
    /// identifiers are passed over; a damaged packet or a gap in the
    /// continuity counter costs the section that was being put together; a
    /// packet that repeats the one before is passed over.
    pub open spec fn absorbed(self, packet: Seq<u8>, target: Target) -> EitView {
        if pid(packet) != EIT_PID {
            self
        } else if has_transport_error(packet) {
            self.lost_sync()
        } else if !has_payload(packet) {
            self
        } else if self.counter == Some(continuity(packet)) {
            self
        } else {
            let in_order = match self.counter {
                None => true,
                Some(last) => continuity(packet) == (last + 1) % 16,
            };
            let base = EitView {
                counter: Some(continuity(packet)),
                section: if in_order {
                    self.section
                } else {
                    None
                },
                ..self
            };
            if payload_offset(packet) > PACKET_SIZE {
                base.dropped()
            } else {
                let payload = packet.subrange(payload_offset(packet), PACKET_SIZE as int);
                if starts_unit(packet) {
                    base.started(payload, target)
                } else {
                    base.continued(payload, target)
                }
            }
        }
    }

    /// The parser after the run of bytes `stream`, which begins where the
    /// parser expects a packet. Where the leading byte of a packet is
    /// missing, the parser looks for it byte by byte. What is left at the
    /// end, less than a packet, is kept for the next chunk.
    pub open spec fn scanned(self, stream: Seq<u8>, target: Target) -> EitView
        decreases stream.len(),
    {
        if stream.len() < PACKET_SIZE {
            EitView { packet: stream, ..self }
        } else if stream[0] != SYNC_BYTE {
            self.lost_sync().scanned(stream.skip(1), target)
        } else {
            self.absorbed(stream.take(PACKET_SIZE as int), target).scanned(
                stream.skip(PACKET_SIZE as int),
                target,
            )
        }
    }

    /// The parser once it looks for `target`: what it found out about
    /// another programme is forgotten.
    pub open spec fn watching(self, target: Target) -> EitView {
        if self.target == Some(target) {
            self
        } else {
            EitView { target: Some(target), present: false, following: false, ..self }
        }
    }

    /// The parser after the chunk `bytes` of the stream, looking for
    /// `target`.
    pub open spec fn pushed(self, bytes: Seq<u8>, target: Target) -> EitView {
        let watching = self.watching(target);
        EitView { packet: Seq::empty(), ..watching }.scanned(watching.packet + bytes, target)
    }
}

/// A parser never holds more than its buffer takes.
pub proof fn lemma_within_buffer(view: EitView)
    requires
        view.wf(),
    ensures
        view.held() <= BUFFER_SIZE,
{
}

/// Reading sections keeps what the parser holds within its bound.
pub proof fn lemma_gathered_wf(view: EitView, data: Seq<u8>, target: Target)
    requires
        view.packet.len() < PACKET_SIZE,
    ensures
        view.gathered(data, target).wf(),
        view.gathered(data, target).packet == view.packet,
        view.gathered(data, target).counter == view.counter,
        view.gathered(data, target).target == view.target,
    decreases data.len(),
{
    if data.len() == 0 || data[0] == STUFFING {
    } else if !is_whole(data) {
    } else {
        lemma_gathered_wf(
            view.noted(data.take(section_size(data)), target),
            data.skip(section_size(data)),
            target,
        );
    }
}

/// Reading one packet keeps what the parser holds within its bound.
pub proof fn lemma_absorbed_wf(view: EitView, packet: Seq<u8>, target: Target)
    requires
        view.wf(),
        packet.len() == PACKET_SIZE,
    ensures
        view.absorbed(packet, target).wf(),
        view.absorbed(packet, target).packet == view.packet,
        view.absorbed(packet, target).target == view.target,
{
    if pid(packet) == EIT_PID && !has_transport_error(packet) && has_payload(packet) && view.counter
        != Some(continuity(packet)) {
        let in_order = match view.counter {
            None => true,
            Some(last) => continuity(packet) == (last + 1) % 16,
        };
        let base = EitView {
            counter: Some(continuity(packet)),
            section: if in_order {
                view.section
            } else {
                None
            },
            ..view
        };
        if payload_offset(packet) <= PACKET_SIZE {
            let payload = packet.subrange(payload_offset(packet), PACKET_SIZE as int);
            if starts_unit(packet) {
                if !(payload.len() == 0 || 1 + payload[0] > payload.len()) {
                    let pointer = payload[0] as int;
                    let ended = EitView {
                        section: None,
                        ..base.continued(payload.subrange(1, 1 + pointer), target)
                    };
                    lemma_gathered_wf(ended, payload.skip(1 + pointer), target);
                }
            }
        }
    }
}

/// Reading a run of bytes keeps what the parser holds within its bound.
pub proof fn lemma_scanned_wf(view: EitView, stream: Seq<u8>, target: Target)
    requires
        view.wf(),
    ensures
        view.scanned(stream, target).wf(),
        view.scanned(stream, target).target == view.target,
    decreases stream.len(),
{
    if stream.len() < PACKET_SIZE {
    } else if stream[0] != SYNC_BYTE {
        lemma_scanned_wf(view.lost_sync(), stream.skip(1), target);
    } else {
        lemma_absorbed_wf(view, stream.take(PACKET_SIZE as int), target);
        lemma_scanned_wf(
            view.absorbed(stream.take(PACKET_SIZE as int), target),
            stream.skip(PACKET_SIZE as int),
            target,
        );
    }
}

/// Whatever the stream holds and wherever it is cut, the parser holds less
/// than a packet and less than a section afterwards, and it looks for the
/// programme that it was asked about.
pub proof fn lemma_pushed_wf(view: EitView, bytes: Seq<u8>, target: Target)
    requires
        view.wf(),
    ensures
        view.pushed(bytes, target).wf(),
        view.pushed(bytes, target).target == Some(target),
{
    let watching = view.watching(target);
    lemma_scanned_wf(EitView { packet: Seq::empty(), ..watching }, watching.packet + bytes, target);
}

/// What the parser holds of an unfinished packet plays no part in reading
/// sections.
proof fn lemma_gathered_apart(view: EitView, data: Seq<u8>, target: Target, packet: Seq<u8>)
    ensures
        (EitView { packet, ..view }).gathered(data, target) == (EitView {
            packet,
            ..view.gathered(data, target)
        }),
    decreases data.len(),
{
    if data.len() == 0 || data[0] == STUFFING {
    } else if !is_whole(data) {
    } else {
        let section = data.take(section_size(data));
        assert((EitView { packet, ..view }).noted(section, target) == (EitView {
            packet,
            ..view.noted(section, target)
        }));
        lemma_gathered_apart(view.noted(section, target), data.skip(section_size(data)), target, packet);
    }
}

/// What the parser holds of an unfinished packet plays no part in reading a
/// packet.
proof fn lemma_absorbed_apart(view: EitView, whole: Seq<u8>, target: Target, packet: Seq<u8>)
    ensures
        (EitView { packet, ..view }).absorbed(whole, target) == (EitView {
            packet,
            ..view.absorbed(whole, target)
        }),
{
    if pid(whole) == EIT_PID && !has_transport_error(whole) && has_payload(whole) && view.counter != Some(
        continuity(whole),
    ) {
        let in_order = match view.counter {
            None => true,
            Some(last) => continuity(whole) == (last + 1) % 16,
        };
        let base = EitView {
            counter: Some(continuity(whole)),
            section: if in_order {
                view.section
            } else {
                None
            },
            ..view
        };
        if payload_offset(whole) <= PACKET_SIZE {
            let payload = whole.subrange(payload_offset(whole), PACKET_SIZE as int);
            if starts_unit(whole) {
                if !(payload.len() == 0 || 1 + payload[0] > payload.len()) {
                    let pointer = payload[0] as int;
                    let ended = EitView {
                        section: None,
                        ..base.continued(payload.subrange(1, 1 + pointer), target)
                    };
                    lemma_gathered_apart(ended, payload.skip(1 + pointer), target, packet);
                }
            }
        }
    }
}

/// What the parser holds of an unfinished packet plays no part in reading a
/// run of bytes: the run says where packets begin.
proof fn lemma_scanned_apart(view: EitView, stream: Seq<u8>, target: Target, packet: Seq<u8>)
    ensures
        (EitView { packet, ..view }).scanned(stream, target) == view.scanned(stream, target),
    decreases stream.len(),
{
    if stream.len() < PACKET_SIZE {
    } else if stream[0] != SYNC_BYTE {
        lemma_scanned_apart(view.lost_sync(), stream.skip(1), target, packet);
    } else {
        let whole = stream.take(PACKET_SIZE as int);
        lemma_absorbed_apart(view, whole, target, packet);
        lemma_scanned_apart(view.absorbed(whole, target), stream.skip(PACKET_SIZE as int), target, packet);
    }
}

/// Reading a run of bytes comes to the same as reading its first part and
/// then what that left over together with the rest.
proof fn lemma_scanned_in_two(view: EitView, first: Seq<u8>, second: Seq<u8>, target: Target)
    ensures
        view.scanned(first + second, target) == (EitView {
            packet: Seq::empty(),
            ..view.scanned(first, target)
        }).scanned(view.scanned(first, target).packet + second, target),
    decreases first.len(),
{
    let stream = first + second;
    if first.len() < PACKET_SIZE {
        lemma_scanned_apart(view, stream, target, Seq::empty());
    } else if first[0] != SYNC_BYTE {
        assert(stream[0] == first[0]);
        assert(stream.skip(1) =~= first.skip(1) + second);
        lemma_scanned_in_two(view.lost_sync(), first.skip(1), second, target);
    } else {
        assert(stream[0] == first[0]);
        assert(stream.take(PACKET_SIZE as int) =~= first.take(PACKET_SIZE as int));
        assert(stream.skip(PACKET_SIZE as int) =~= first.skip(PACKET_SIZE as int) + second);
        lemma_scanned_in_two(
            view.absorbed(first.take(PACKET_SIZE as int), target),
            first.skip(PACKET_SIZE as int),
            second,
            target,
        );
    }
}

/// It makes no difference where the stream is cut into chunks: two chunks
/// one after the other leave the parser as the two in one piece do.
pub proof fn theorem_cut_is_immaterial(view: EitView, first: Seq<u8>, second: Seq<u8>, target: Target)
    requires
        view.wf(),
    ensures
        view.pushed(first, target).pushed(second, target) == view.pushed(first + second, target),
{
    let watching = view.watching(target);
    let start = EitView { packet: Seq::empty(), ..watching };
    lemma_pushed_wf(view, first, target);
    assert((watching.packet + first) + second =~= watching.packet + (first + second));
    lemma_scanned_in_two(start, watching.packet + first, second, target);
}

/// Whether `packet` is a sound packet of the table's packet stream that
/// carries exactly the section `section`, from its first payload byte on,
/// and stuffing behind it.
pub open spec fn carries(packet: Seq<u8>, section: Seq<u8>) -> bool {
    &&& packet.len() == PACKET_SIZE
    &&& packet[0] == SYNC_BYTE
    &&& pid(packet) == EIT_PID
    &&& !has_transport_error(packet)
    &&& has_payload(packet)
    &&& !has_adaptation(packet)
    &&& starts_unit(packet)
    &&& packet[4] == 0
    &&& 3 <= section.len() <= PACKET_SIZE - 5
    &&& section.len() == section_size(section)
    &&& section[0] != STUFFING
    &&& packet.subrange(5, 5 + section.len() as int) == section
    &&& 5 + section.len() < PACKET_SIZE ==> packet[5 + section.len() as int] == STUFFING
}

/// A parser that has seen nothing finds the programme in the first packet
/// that carries a sound section of its service which lists it: as present
/// where the section is the one of present events, as following where it is
/// the one of following events.
pub proof fn theorem_listed_programme_is_found(packet: Seq<u8>, section: Seq<u8>, target: Target)
    requires
        carries(packet, section),
        concerns(section, target),
        lists_event(section.subrange(14, section.len() - 4), target.event_id),
    ensures
        section[6] == 0 ==> EitView::fresh().pushed(packet, target).detected() == EitDetected::FoundInP,
        section[6] == 1 ==> EitView::fresh().pushed(packet, target).detected() == EitDetected::FoundInF,
        section[6] > 1 ==> EitView::fresh().pushed(packet, target).detected() == EitDetected::NotFound,
{
    let watching = EitView::fresh().watching(target);
    let start = EitView { packet: Seq::<u8>::empty(), ..watching };
    let stream = watching.packet + packet;
    assert(stream =~= packet);
    assert(stream.take(PACKET_SIZE as int) =~= packet);
    let read = start.absorbed(packet, target);
    assert(start.scanned(stream, target) == read.scanned(stream.skip(PACKET_SIZE as int), target));
    assert(stream.skip(PACKET_SIZE as int).len() == 0);
    assert(read.scanned(stream.skip(PACKET_SIZE as int), target).detected() == read.detected());

    let base = EitView { counter: Some(continuity(packet)), section: None, ..start };
    let payload = packet.subrange(4, PACKET_SIZE as int);
    assert(payload[0] == packet[4]);
    assert(read == base.started(payload, target));
    let tail = payload.subrange(1, 1);
    let ended = EitView { section: None, ..base.continued(tail, target) };
    assert(ended == base);
    let data = payload.skip(1);
    assert(read == base.gathered(data, target));
    assert(data.len() == PACKET_SIZE - 5);
    assert forall|i: int| 0 <= i < section.len() implies data[i] == section[i] by {
        assert(data[i] == packet[5 + i]);
        assert(packet.subrange(5, 5 + section.len() as int)[i] == packet[5 + i]);
    }
    assert(section_size(data) == section.len());
    assert(is_whole(data));
    assert(data.take(section_size(data)) =~= section);
    let noted = base.noted(section, target);
    let rest = data.skip(section_size(data));
    assert(read == noted.gathered(rest, target));
    if rest.len() > 0 {
        assert(rest[0] == packet[5 + section.len() as int]);
    }
    assert(noted.gathered(rest, target) == noted.dropped());
}

/// The programme of `info` as the tables name it.
pub open spec fn target_of(info: RecordingTaskDescription) -> Target {
    Target {
        network_id: info.program.network_id,
        service_id: info.program.service_id,
        event_id: info.program.event_id,
    }
}

fn crc_step(crc: u32) -> (next: u32)
    ensures
        next == crc_shift(crc),
{
    if crc & 0x8000_0000u32 != 0 {
        (crc << 1u32) ^ 0x04C1_1DB7u32
    } else {
        crc << 1u32
    }
}

fn crc_next(crc: u32, byte: u8) -> (next: u32)
    ensures
        next == crc_byte(crc, byte),
{
    let c0: u32 = crc ^ ((byte as u32) << 24u32);
    let c1: u32 = crc_step(c0);
    let c2: u32 = crc_step(c1);
    let c3: u32 = crc_step(c2);
    let c4: u32 = crc_step(c3);
    let c5: u32 = crc_step(c4);
    let c6: u32 = crc_step(c5);
    let c7: u32 = crc_step(c6);
    crc_step(c7)
}

/// Computes the checksum over `size` bytes of `data` from `from` on.
fn checksum(data: &[u8], from: usize, size: usize) -> (crc: u32)
    requires
        from + size <= data.len(),
    ensures
        crc == crc_of(data@.subrange(from as int, from + size)),
{
    let mut crc: u32 = 0xFFFF_FFFFu32;
    let mut i: usize = 0;
    while i < size
        invariant
            i <= size,
            from + size <= data.len(),
            crc == crc_of(data@.subrange(from as int, from + i)),
        decreases size - i,
    {
        assert(data@.subrange(from as int, from + i + 1).drop_last() =~= data@.subrange(
            from as int,
            from + i,
        ));
        crc = crc_next(crc, data[from + i]);
        i += 1;
    }
    crc
}

/// Tests whether the events of `data` between `from` and `to` list the
/// event `event_id`.
fn lists(data: &[u8], from: usize, to: usize, event_id: i32) -> (listed: bool)
    requires
        from <= to <= data.len(),
    ensures
        listed == lists_event(data@.subrange(from as int, to as int), event_id),
{
    let mut at: usize = from;
    loop
        invariant
            from <= at <= to <= data.len(),
            lists_event(data@.subrange(from as int, to as int), event_id) == lists_event(
                data@.subrange(at as int, to as int),
                event_id,
            ),
        decreases to - at,
    {
        let ghost events = data@.subrange(at as int, to as int);
        if to - at < 12 {
            return false;
        }
        let number: i32 = (data[at] as i32) * 256 + (data[at + 1] as i32);
        assert(events[0] == data@[at as int] && events[1] == data@[at + 1]);
        if number == event_id {
            return true;
        }
        let next: usize = 12 + ((data[at + 10] % 16) as usize) * 256 + (data[at + 11] as usize);
        assert(events[10] == data@[at + 10] && events[11] == data@[at + 11]);
        if next > to - at {
            return false;
        }
        assert(events.skip(next as int) =~= data@.subrange(at + next, to as int));
        at = at + next;
    }
}

/// Tests whether the section of `size` bytes at `from` is a sound section
/// of the table for the service of `target`.
fn is_relevant(data: &[u8], from: usize, size: usize, target: Target) -> (relevant: bool)
    requires
        from + size <= data.len(),
    ensures
        relevant == concerns(data@.subrange(from as int, from + size), target),
{
    let ghost section = data@.subrange(from as int, from + size);
    if size < 18 {
        return false;
    }
    assert(section[0] == data@[from as int]);
    assert(section[1] == data@[from + 1]);
    assert(section[3] == data@[from + 3] && section[4] == data@[from + 4]);
    assert(section[5] == data@[from + 5]);
    assert(section[10] == data@[from + 10] && section[11] == data@[from + 11]);
    let service: i32 = (data[from + 3] as i32) * 256 + (data[from + 4] as i32);
    let network: i32 = (data[from + 10] as i32) * 256 + (data[from + 11] as i32);
    data[from] == TABLE_ID && data[from + 1] >= 128 && data[from + 5] % 2 == 1 && service
        == target.service_id && network == target.network_id && checksum(data, from, size) == 0
}

/// Settles what a whole section says about the programme: gives whether
/// it is present and whether it is following, after the section of `size`
/// bytes at `from`.
fn settle(present: bool, following: bool, data: &[u8], from: usize, size: usize, target: Target) -> (flags: (
    bool,
    bool,
))
    requires
        from + size <= data.len(),
    ensures
        forall|view: EitView|
            view.present == present && view.following == following ==> #[trigger] view.noted(
                data@.subrange(from as int, from + size),
                target,
            ) == (EitView { present: flags.0, following: flags.1, ..view }),
{
    let ghost section = data@.subrange(from as int, from + size);
    if is_relevant(data, from, size, target) {
        let listed = lists(data, from + 14, from + size - 4, target.event_id);
        assert(section.subrange(14, section.len() - 4) =~= data@.subrange(from + 14, from + size - 4));
        assert(section[6] == data@[from + 6]);
        let number: u8 = data[from + 6];
        if number == 0 {
            (listed, following)
        } else if number == 1 {
            (present, listed)
        } else {
            (present, following)
        }
    } else {
        (present, following)
    }
}

/// Appends the bytes of `data` between `from` and `to` to `buffer`.
fn append(buffer: &mut Vec<u8>, data: &[u8], from: usize, to: usize)
    requires
        from <= to <= data.len(),
    ensures
        final(buffer)@ == old(buffer)@ + data@.subrange(from as int, to as int),
{
    let mut at: usize = from;
    while at < to
        invariant
            from <= at <= to <= data.len(),
            buffer@ == old(buffer)@ + data@.subrange(from as int, at as int),
        decreases to - at,
    {
        buffer.push(data[at]);
        at += 1;
        assert(buffer@ =~= old(buffer)@ + data@.subrange(from as int, at as int));
    }
}

/// What the parser holds.
struct State {
    packet: Vec<u8>,
    section: Vec<u8>,
    assembling: bool,
    counter: Option<u8>,
    target: Option<Target>,
    present: bool,
    following: bool,
}

impl State {
    spec fn view(self) -> EitView {
        EitView {
            packet: self.packet@,
            section: if self.assembling {
                Some(self.section@)
            } else {
                None
            },
            counter: self.counter,
            target: self.target,
            present: self.present,
            following: self.following,
        }
    }

    spec fn ok(self) -> bool {
        &&& self.view().wf()
        &&& !self.assembling ==> self.section@.len() == 0
    }

    fn drop_section(&mut self)
        ensures
            final(self).view() == old(self).view().dropped(),
            final(self).packet == old(self).packet,
            old(self).packet@.len() < PACKET_SIZE ==> final(self).ok(),
    {
        self.section.clear();
        self.assembling = false;
    }

    /// Reads `data` between `from` and `to`, which begins where a section
    /// begins.
    fn gather(&mut self, data: &[u8], from: usize, to: usize, target: Target)
        requires
            from <= to <= data.len(),
            old(self).ok(),
            !old(self).assembling,
        ensures
            final(self).view() == old(self).view().gathered(
                data@.subrange(from as int, to as int),
                target,
            ),
            final(self).ok(),
            final(self).packet == old(self).packet,
    {
        let ghost start = self.view();
        let mut at: usize = from;
        loop
            invariant
                from <= at <= to <= data.len(),
                self.ok(),
                !self.assembling,
                self.packet == old(self).packet,
                start == old(self).view(),
                start.gathered(data@.subrange(from as int, to as int), target) == self.view().gathered(
                    data@.subrange(at as int, to as int),
                    target,
                ),
            decreases to - at,
        {
            let ghost rest = data@.subrange(at as int, to as int);
            if at == to {
                assert(self.view().dropped() == self.view());
                return ;
            }
            assert(rest[0] == data@[at as int]);
            if data[at] == STUFFING {
                assert(self.view().dropped() == self.view());
                return ;
            }
            let left: usize = to - at;
            if left >= 3 {
                assert(rest[1] == data@[at + 1] && rest[2] == data@[at + 2]);
                let size: usize = 3 + ((data[at + 1] % 16) as usize) * 256 + (data[at + 2] as usize);
                if left >= size {
                    let flags = settle(self.present, self.following, data, at, size, target);
                    assert(rest.take(size as int) =~= data@.subrange(at as int, at + size));
                    assert(rest.skip(size as int) =~= data@.subrange(at + size, to as int));
                    self.present = flags.0;
                    self.following = flags.1;
                    at = at + size;
                    continue ;
                }
            }
            append(&mut self.section, data, at, to);
            self.assembling = true;
            assert(self.section@ =~= rest);
            return ;
        }
    }

    /// Goes on with the section that is being put together, if there is
    /// one, with the bytes of `data` between `from` and `to`.
    fn carry_on(&mut self, data: &[u8], from: usize, to: usize, target: Target)
        requires
            from <= to <= data.len(),
            to - from <= PACKET_SIZE,
            old(self).ok(),
        ensures
            final(self).view() == old(self).view().continued(
                data@.subrange(from as int, to as int),
                target,
            ),
            final(self).ok(),
            final(self).packet == old(self).packet,
    {
        if !self.assembling {
            return ;
        }
        let ghost part = self.section@;
        append(&mut self.section, data, from, to);
        let ghost joined = self.section@;
        let len: usize = self.section.len();
        if len >= 3 {
            let size: usize = 3 + ((self.section[1] % 16) as usize) * 256 + (self.section[2] as usize);
            if len >= size {
                let flags = settle(
                    self.present,
                    self.following,
                    self.section.as_slice(),
                    0,
                    size,
                    target,
                );
                assert(joined.take(size as int) =~= joined.subrange(0, size as int));
                self.present = flags.0;
                self.following = flags.1;
                self.section.clear();
                self.assembling = false;
                return ;
            }
        }
    }

    /// Reads a payload in which a section starts.
    fn start_unit(&mut self, data: &[u8], from: usize, to: usize, target: Target)
        requires
            from <= to <= data.len(),
            to - from <= PACKET_SIZE,
            old(self).ok(),
        ensures
            final(self).view() == old(self).view().started(
                data@.subrange(from as int, to as int),
                target,
            ),
            final(self).ok(),
            final(self).packet == old(self).packet,
    {
        let ghost payload = data@.subrange(from as int, to as int);
        if from == to {
            self.drop_section();
            return ;
        }
        assert(payload[0] == data@[from as int]);
        let pointer: usize = data[from] as usize;
        if 1 + pointer > to - from {
            self.drop_section();
            return ;
        }
        self.carry_on(data, from + 1, from + 1 + pointer, target);
        assert(payload.subrange(1, 1 + pointer) =~= data@.subrange(from + 1, from + 1 + pointer));
        self.drop_section();
        self.gather(data, from + 1 + pointer, to, target);
        assert(payload.skip(1 + pointer) =~= data@.subrange(from + 1 + pointer, to as int));
    }

    /// Reads the packet of the stream that begins at `from`.
    fn absorb(&mut self, data: &[u8], from: usize, target: Target)
        requires
            from + PACKET_SIZE <= data.len(),
            old(self).ok(),
        ensures
            final(self).view() == old(self).view().absorbed(
                data@.subrange(from as int, from + PACKET_SIZE),
                target,
            ),
            final(self).ok(),
            final(self).packet == old(self).packet,
    {
        let ghost packet = data@.subrange(from as int, from + PACKET_SIZE);
        assert(packet[1] == data@[from + 1] && packet[2] == data@[from + 2] && packet[3] == data@[from
            + 3] && packet[4] == data@[from + 4]);
        let number: u16 = ((data[from + 1] % 32) as u16) * 256 + (data[from + 2] as u16);
        if number != EIT_PID {
            return ;
        }
        if data[from + 1] >= 128 {
            self.drop_section();
            self.counter = None;
            return ;
        }
        let flags: u8 = data[from + 3];
        if (flags / 16) % 2 != 1 {
            return ;
        }
        let counter: u8 = flags % 16;
        let in_order = match self.counter {
            None => true,
            Some(last) => {
                if last == counter {
                    return ;
                }
                counter as u16 == (last as u16 + 1) % 16
            },
        };
        self.counter = Some(counter);
        if !in_order {
            self.drop_section();
        }
        let offset: usize = if (flags / 32) % 2 == 1 {
            5 + data[from + 4] as usize
        } else {
            4
        };
        if offset > PACKET_SIZE {
            self.drop_section();
            return ;
        }
        assert(packet.subrange(offset as int, PACKET_SIZE as int) =~= data@.subrange(
            from + offset,
            from + PACKET_SIZE,
        ));
        if (data[from + 1] / 64) % 2 == 1 {
            self.start_unit(data, from + offset, from + PACKET_SIZE, target);
        } else {
            self.carry_on(data, from + offset, from + PACKET_SIZE, target);
        }
    }
}

/// The parser of the event information tables of one stream.
pub struct EitParser {
    state: State,
}

impl View for EitParser {
    type V = EitView;

    closed spec fn view(&self) -> EitView {
        self.state.view()
    }
}

impl EitParser {
    #[verifier::type_invariant]
    spec fn well_formed(self) -> bool {
        self.state.ok()
    }

    /// A parser that has seen nothing of the stream.
    pub fn new() -> (parser: EitParser)
        ensures
            parser@ == EitView::fresh(),
            parser@.wf(),
    {
        EitParser {
            state: State {
                packet: Vec::new(),
                section: Vec::new(),
                assembling: false,
                counter: None,
                target: None,
                present: false,
                following: false,
            },
        }
    }

    /// What the stream has signalled so far about the programme that the
    /// parser was last asked about.
    pub fn detected(&self) -> (detected: EitDetected)
        ensures
            detected == self@.detected(),
    {
        if self.state.present {
            EitDetected::FoundInP
        } else if self.state.following {
            EitDetected::FoundInF
        } else {
            EitDetected::NotFound
        }
    }

    /// Takes the next chunk of the stream and says what the stream signals
    /// about the programme of `program` now. The chunk may be cut anywhere.
    /// What is damaged in the stream is passed over and changes nothing.
    pub fn push(&mut self, buf: &[u8], program: &RecordingTaskDescription) -> (detected: EitDetected)
        ensures
            final(self)@ == old(self)@.pushed(buf@, target_of(*program)),
            detected == final(self)@.detected(),
            final(self)@.wf(),
            final(self)@.held() <= BUFFER_SIZE,
    {
        let target = Target {
            network_id: program.program.network_id,
            service_id: program.program.service_id,
            event_id: program.program.event_id,
        };
        let mut fresh = EitParser::new();
        core::mem::swap(self, &mut fresh);
        proof {
            use_type_invariant(&fresh);
        }
        let mut state = fresh.state;
        let same = match state.target {
            Some(watched) => watched == target,
            None => false,
        };
        if !same {
            state.target = Some(target);
            state.present = false;
            state.following = false;
        }
        assert(state.view() == old(self)@.watching(target));
        let mut stream: Vec<u8> = Vec::new();
        core::mem::swap(&mut stream, &mut state.packet);
        let ghost carried = stream@;
        append(&mut stream, buf, 0, buf.len());
        assert(buf@.subrange(0, buf@.len() as int) =~= buf@);
        assert(stream@ == carried + buf@);
        let ghost goal = old(self)@.pushed(buf@, target);
        let mut at: usize = 0;
        assert(stream@.skip(0) =~= stream@);
        while stream.len() - at >= PACKET_SIZE
            invariant
                at <= stream.len(),
                state.ok(),
                state.packet@.len() == 0,
                goal == state.view().scanned(stream@.skip(at as int), target),
            decreases stream.len() - at,
        {
            let ghost rest = stream@.skip(at as int);
            assert(rest[0] == stream@[at as int]);
            if stream[at] != SYNC_BYTE {
                state.drop_section();
                state.counter = None;
                assert(rest.skip(1) =~= stream@.skip(at + 1));
                at += 1;
            } else {
                state.absorb(stream.as_slice(), at, target);
                assert(rest.take(PACKET_SIZE as int) =~= stream@.subrange(at as int, at + PACKET_SIZE));
                assert(rest.skip(PACKET_SIZE as int) =~= stream@.skip(at + PACKET_SIZE));
                at += PACKET_SIZE;
            }
        }
        append(&mut state.packet, stream.as_slice(), at, stream.len());
        assert(state.packet@ =~= stream@.skip(at as int));
        let detected = if state.present {
            EitDetected::FoundInP
        } else if state.following {
            EitDetected::FoundInF
        } else {
            EitDetected::NotFound
        };
        *self = EitParser { state };
        detected
    }
}

} // verus!
