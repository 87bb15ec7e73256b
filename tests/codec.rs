use fast_tools::drive::{message_step, packet_step, DecodeOutcome, LoopAction, RunStatistics, Sink, frame_next};
use fast_tools::message::NullMessageFactory;
use fast_tools::packet::{Packet, PacketError};
use fast_tools::reader::ByteReader;
use fast_tools::varint::{read_var_uint, write_var_uint};

fn encode(v: u64) -> Vec<u8> {
    let mut out = Vec::new();
    write_var_uint(&mut out, v);
    out
}

fn decode(bytes: Vec<u8>) -> Result<Option<u64>, PacketError> {
    let mut r = ByteReader::new(bytes);
    read_var_uint(&mut r)
}

#[test]
fn vlq_single_byte_values() {
    assert_eq!(encode(0), vec![0x80]);
    assert_eq!(encode(127), vec![0xFF]);
}

#[test]
fn vlq_two_byte_value() {
    assert_eq!(encode(128), vec![0x01, 0x80]);
}

#[test]
fn vlq_round_trip_samples() {
    for v in [0u64, 1, 5, 127, 128, 300, 16383, 16384, 1 << 35, u64::MAX - 1, u64::MAX] {
        assert_eq!(decode(encode(v)), Ok(Some(v)));
    }
}

#[test]
fn vlq_largest_value_takes_ten_bytes() {
    let e = encode(u64::MAX);
    assert_eq!(e.len(), 10);
    assert_eq!(e[0], 0x01);
    assert_eq!(e[9], 0xFF);
}

#[test]
fn vlq_empty_input_is_no_value() {
    assert_eq!(decode(vec![]), Ok(None));
}

#[test]
fn vlq_cut_short_is_an_error() {
    assert_eq!(decode(vec![0x01, 0x02]), Err(PacketError::Truncated));
}

#[test]
fn vlq_leaves_following_bytes() {
    let mut r = ByteReader::new(vec![0x01, 0x80, 0x07]);
    assert_eq!(read_var_uint(&mut r), Ok(Some(128)));
    assert_eq!(r.remaining(), 1);
}

fn frame(p: Packet) -> Vec<u8> {
    let mut out = Vec::new();
    p.write(&mut out);
    out
}

fn read_one(bytes: Vec<u8>) -> Result<Option<Packet>, PacketError> {
    let mut r = ByteReader::new(bytes);
    Packet::read(&mut r)
}

#[test]
fn single_small_packet() {
    let bytes = vec![0x8A, 0x00, 0x00, 0x00, 0x01, 0x05, 0x01, 0x02, 0x03, 0x04, 0x05];
    let p = read_one(bytes.clone()).unwrap().unwrap();
    assert_eq!(p.seq_num, 1);
    assert_eq!(p.sub_channel, 5);
    assert_eq!(p.payload, vec![1, 2, 3, 4, 5]);
    assert_eq!(frame(p), bytes);
}

#[test]
fn zero_length_payload() {
    let p = Packet { seq_num: 0, sub_channel: 0, payload: vec![] };
    assert_eq!(frame(p), vec![0x85, 0, 0, 0, 0, 0]);
}

#[test]
fn packet_round_trip_samples() {
    for (s, c, n) in [(0u32, 0u8, 0usize), (1, 5, 3), (u32::MAX, 255, 200), (0x01020304, 7, 130)] {
        let payload: Vec<u8> = (0..n).map(|i| (i * 7) as u8).collect();
        let bytes = frame(Packet { seq_num: s, sub_channel: c, payload: payload.clone() });
        let mut r = ByteReader::new(bytes);
        let p = Packet::read(&mut r).unwrap().unwrap();
        assert_eq!((p.seq_num, p.sub_channel, p.payload), (s, c, payload));
        assert_eq!(r.remaining(), 0);
    }
}

#[test]
fn big_endian_sequence_number() {
    let bytes = frame(Packet { seq_num: 0x01020304, sub_channel: 9, payload: vec![0xAA] });
    assert_eq!(bytes, vec![0x86, 1, 2, 3, 4, 9, 0xAA]);
}

#[test]
fn short_lengths_are_rejected() {
    for len in 0u64..5 {
        let mut bytes = encode(len);
        bytes.extend_from_slice(&[0, 0, 0, 0, 0, 0, 0]);
        assert_eq!(read_one(bytes).unwrap_err(), PacketError::InvalidLength(len));
    }
}

#[test]
fn empty_input_has_no_packet() {
    assert!(read_one(vec![]).unwrap().is_none());
}

#[test]
fn truncated_frame_is_an_error() {
    let bytes = vec![0x8A, 0, 0, 0, 1, 5, 1, 2];
    assert_eq!(read_one(bytes).unwrap_err(), PacketError::Truncated);
    assert_eq!(read_one(vec![0x01]).unwrap_err(), PacketError::Truncated);
}

#[test]
fn two_packets_in_a_row() {
    let mut bytes = frame(Packet { seq_num: 1, sub_channel: 0, payload: vec![9] });
    bytes.extend(frame(Packet { seq_num: 2, sub_channel: 0, payload: vec![8, 7] }));
    let mut r = ByteReader::new(bytes);
    assert_eq!(Packet::read(&mut r).unwrap().unwrap().payload, vec![9]);
    assert_eq!(Packet::read(&mut r).unwrap().unwrap().seq_num, 2);
    assert!(Packet::read(&mut r).unwrap().is_none());
}

#[test]
fn discard_sink_over_messages() {
    let sink = Sink::from_options(true, false);
    let mut stats = RunStatistics::new();
    let mut out = Vec::new();
    let n = 7u64;
    for _ in 0..n {
        assert_eq!(message_step(&mut stats, DecodeOutcome::Decoded), LoopAction::Render);
        sink.render(&b"record".to_vec(), &mut out);
    }
    assert_eq!(message_step(&mut stats, DecodeOutcome::EndOfStream), LoopAction::Finish);
    assert!(out.is_empty());
    assert_eq!(stats.message_count, n);
}

#[test]
fn zero_messages_have_no_average() {
    let mut stats = RunStatistics::new();
    assert_eq!(message_step(&mut stats, DecodeOutcome::EndOfStream), LoopAction::Finish);
    assert_eq!(stats.average_micros(1234), None);
}

#[test]
fn average_divides_by_count() {
    let mut stats = RunStatistics::new();
    stats.record_packet();
    stats.record_packet();
    assert_eq!(stats.packet_count, 2);
    assert_eq!(stats.average_micros(1001), Some(500));
}

#[test]
fn failed_decode_aborts() {
    let mut stats = RunStatistics::new();
    assert_eq!(message_step(&mut stats, DecodeOutcome::Failed), LoopAction::Abort);
    assert_eq!(stats.message_count, 0);
}

#[test]
fn text_and_json_sinks_write_lines() {
    let mut out = Vec::new();
    Sink::from_options(false, false).render(&b"a=1".to_vec(), &mut out);
    Sink::from_options(false, true).render(&b"{}".to_vec(), &mut out);
    assert_eq!(out, b"a=1\n{}\n".to_vec());
    assert_eq!(Sink::from_options(false, true), Sink::Json);
    assert!(!Sink::Discard.writes_output());
}

#[test]
fn frames_numbered_from_given_sequence() {
    let mut out = Vec::new();
    let next = frame_next(1, vec![0x42], &mut out);
    assert_eq!(next, 2);
    assert_eq!(out, vec![0x86, 0, 0, 0, 1, 0, 0x42]);
}

#[test]
fn null_factory_builds() {
    let _f = NullMessageFactory::new();
}

#[test]
fn packet_loop_counts_frames() {
    let mut bytes = Vec::new();
    let next = frame_next(1, vec![1, 2], &mut bytes);
    frame_next(next, vec![3], &mut bytes);
    let mut r = ByteReader::new(bytes);
    let mut stats = RunStatistics::new();
    assert_eq!(packet_step(&mut r, &mut stats), Ok(Some(vec![1, 2])));
    assert_eq!(packet_step(&mut r, &mut stats), Ok(Some(vec![3])));
    assert_eq!(packet_step(&mut r, &mut stats), Ok(None));
    assert_eq!((stats.packet_count, stats.message_count), (2, 2));
}

#[test]
fn packet_loop_stops_on_bad_length() {
    let mut r = ByteReader::new(vec![0x83, 0, 0, 0]);
    let mut stats = RunStatistics::new();
    assert_eq!(packet_step(&mut r, &mut stats), Err(PacketError::InvalidLength(3)));
    assert_eq!(stats.packet_count, 0);
}
