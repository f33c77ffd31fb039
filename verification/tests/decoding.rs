use countersyncd::bytes::{read_counter, read_u16, read_u32};
use countersyncd::diagnostics::{Diagnostic, Diagnostics, Note};
use countersyncd::engine::{DecoderEvent, IpfixEngine};
use countersyncd::message::{
    Counter, FieldSpec, StatisticsRecord, TemplateOp, TemplateUpdate, VARIABLE_LENGTH,
};
use countersyncd::template::{Template, TemplateTable};
use countersyncd::wire::{
    decode_data_set, decode_record, locate_field, parse_header, parse_template_record,
    MessageHeader,
};

fn field(id: u16, len: u16, name: &str) -> FieldSpec {
    FieldSpec { information_element_id: id, byte_length: len, sai_counter_name: name.to_string() }
}

fn rx_tx_fields() -> Vec<FieldSpec> {
    vec![field(1, 4, "rx_bytes"), field(2, 4, "tx_bytes")]
}

fn define(domain: u32, id: u16, fields: Vec<FieldSpec>) -> TemplateUpdate {
    TemplateUpdate { template_id: id, observation_domain: domain, fields, op: TemplateOp::Define }
}

fn withdraw(domain: u32, id: u16) -> TemplateUpdate {
    TemplateUpdate {
        template_id: id,
        observation_domain: domain,
        fields: Vec::new(),
        op: TemplateOp::Withdraw,
    }
}

fn set(id: u16, body: &[u8]) -> Vec<u8> {
    let mut out = Vec::new();
    out.extend_from_slice(&id.to_be_bytes());
    out.extend_from_slice(&((body.len() + 4) as u16).to_be_bytes());
    out.extend_from_slice(body);
    out
}

fn message(export_time: u32, sequence: u32, domain: u32, sets: &[Vec<u8>]) -> Vec<u8> {
    let mut body = Vec::new();
    for s in sets {
        body.extend_from_slice(s);
    }
    let mut out = Vec::new();
    out.extend_from_slice(&10u16.to_be_bytes());
    out.extend_from_slice(&((body.len() + 16) as u16).to_be_bytes());
    out.extend_from_slice(&export_time.to_be_bytes());
    out.extend_from_slice(&sequence.to_be_bytes());
    out.extend_from_slice(&domain.to_be_bytes());
    out.extend_from_slice(&body);
    out
}

fn take(engine: &mut IpfixEngine, frame: &[u8]) -> Vec<StatisticsRecord> {
    engine.handle_frame(frame).records
}

fn note(what: Diagnostic, domain: u32, set_id: u16, offset: usize, length: usize) -> Note {
    Note { what, observation_domain: domain, set_id, offset, length }
}

fn counter(name: &str, value: u64) -> Counter {
    Counter { name: name.to_string(), value }
}

fn some_header() -> MessageHeader {
    MessageHeader {
        version: 10,
        length: 24,
        export_time: 1000,
        sequence_number: 7,
        observation_domain: 3,
    }
}

const RECORD_5_7: [u8; 8] = [0, 0, 0, 5, 0, 0, 0, 7];

#[test]
fn reads_big_endian_integers() {
    let buf = [0x12u8, 0x34, 0x56, 0x78, 0x9a];
    assert_eq!(read_u16(&buf, 0), 0x1234);
    assert_eq!(read_u16(&buf, 3), 0x789a);
    assert_eq!(read_u32(&buf, 1), 0x3456789a);
}

#[test]
fn counter_of_no_bytes_is_zero() {
    let buf = [9u8, 9];
    assert_eq!(read_counter(&buf, 1, 1), 0);
}

#[test]
fn counter_of_eight_bytes_is_exact() {
    let buf = [0xffu8; 8];
    assert_eq!(read_counter(&buf, 0, 8), u64::MAX);
    let buf = [1u8, 2, 3, 4, 5, 6, 7, 8];
    assert_eq!(read_counter(&buf, 0, 8), 0x0102030405060708);
    assert_eq!(read_counter(&buf, 2, 5), 0x030405);
}

#[test]
fn counter_wider_than_eight_bytes_keeps_the_low_order_bytes() {
    let buf = [0xaau8, 0xbb, 1, 2, 3, 4, 5, 6, 7, 8];
    assert_eq!(read_counter(&buf, 0, 10), 0x0102030405060708);
}

#[test]
fn header_is_read_field_by_field() {
    let frame = message(0x01020304, 0x0a0b0c0d, 0x11223344, &[]);
    assert_eq!(
        parse_header(&frame),
        Some(MessageHeader {
            version: 10,
            length: 16,
            export_time: 0x01020304,
            sequence_number: 0x0a0b0c0d,
            observation_domain: 0x11223344,
        })
    );
}

#[test]
fn header_needs_sixteen_bytes() {
    let frame = message(1, 2, 3, &[]);
    assert_eq!(parse_header(&frame[..15]), None);
    assert_eq!(parse_header(&[]), None);
}

#[test]
fn header_length_must_be_the_size_of_the_frame() {
    let mut frame = message(1, 2, 3, &[set(256, &RECORD_5_7)]);
    assert!(parse_header(&frame).is_some());
    frame.push(0);
    assert_eq!(parse_header(&frame), None);
    frame.pop();
    frame.pop();
    assert_eq!(parse_header(&frame), None);
}

#[test]
fn header_version_is_not_judged() {
    let mut frame = message(1, 2, 3, &[]);
    frame[1] = 9;
    assert_eq!(parse_header(&frame).map(|h| h.version), Some(9));
}

#[test]
fn fixed_field_is_its_own_value() {
    let buf = [1u8, 2, 3, 4, 5];
    assert_eq!(locate_field(&buf, 1, 5, 4), Some((1, 5)));
    assert_eq!(locate_field(&buf, 1, 5, 0), Some((1, 1)));
    assert_eq!(locate_field(&buf, 2, 5, 4), None);
    assert_eq!(locate_field(&buf, 0, 3, 4), None);
}

#[test]
fn variable_field_with_short_length() {
    let buf = [3u8, 0xa, 0xb, 0xc, 0xd];
    assert_eq!(locate_field(&buf, 0, 5, VARIABLE_LENGTH), Some((1, 4)));
    assert_eq!(locate_field(&buf, 0, 3, VARIABLE_LENGTH), None);
    assert_eq!(locate_field(&buf, 5, 5, VARIABLE_LENGTH), None);
    let zero = [0u8];
    assert_eq!(locate_field(&zero, 0, 1, VARIABLE_LENGTH), Some((1, 1)));
}

#[test]
fn variable_field_with_long_length() {
    let mut buf = vec![255u8, 0x01, 0x02];
    buf.extend(std::iter::repeat(7u8).take(0x0102));
    assert_eq!(locate_field(&buf, 0, buf.len(), VARIABLE_LENGTH), Some((3, 3 + 0x0102)));
    assert_eq!(locate_field(&buf, 0, buf.len() - 1, VARIABLE_LENGTH), None);
    assert_eq!(locate_field(&buf, 0, 2, VARIABLE_LENGTH), None);
}

#[test]
fn decode_correctness() {
    let (counters, next) = decode_record(&RECORD_5_7, 0, 8, &rx_tx_fields()).unwrap();
    assert_eq!(counters, vec![counter("rx_bytes", 5), counter("tx_bytes", 7)]);
    assert_eq!(next, 8);
}

#[test]
fn decoded_record_binds_names_to_values() {
    let template = Template { fields: rx_tx_fields(), revision: 4 };
    let (records, truncated) =
        decode_data_set(&RECORD_5_7, 0, 8, &some_header(), 300, &template);
    assert!(!truncated);
    assert_eq!(records.len(), 1);
    let record = &records[0];
    assert_eq!(record.counter(&"rx_bytes".to_string()), Some(5));
    assert_eq!(record.counter(&"tx_bytes".to_string()), Some(7));
    assert_eq!(record.counter(&"other".to_string()), None);
    assert_eq!(record.observation_domain, 3);
    assert_eq!(record.template_id, 300);
    assert_eq!(record.template_revision, 4);
    assert_eq!(record.export_time, 1000);
    assert_eq!(record.sequence_number, 7);
}

#[test]
fn counter_lookup_takes_the_last_of_a_name() {
    let record = StatisticsRecord {
        observation_domain: 0,
        template_id: 256,
        template_revision: 1,
        export_time: 0,
        sequence_number: 0,
        counters: vec![counter("a", 1), counter("b", 2), counter("a", 3)],
    };
    assert_eq!(record.counter(&"a".to_string()), Some(3));
    assert_eq!(record.counter(&"b".to_string()), Some(2));
}

#[test]
fn truncated_record() {
    let template = Template { fields: rx_tx_fields(), revision: 1 };
    let short = [0u8, 0, 0, 5, 0, 0];
    let (records, truncated) = decode_data_set(&short, 0, 6, &some_header(), 300, &template);
    assert_eq!(records, Vec::new());
    assert!(truncated);
    assert_eq!(decode_record(&short, 0, 6, &rx_tx_fields()), None);
}

#[test]
fn data_set_holds_several_records() {
    let template = Template { fields: rx_tx_fields(), revision: 2 };
    let body = [0u8, 0, 0, 1, 0, 0, 0, 2, 0, 0, 0, 3, 0, 0, 0, 4];
    let (records, truncated) = decode_data_set(&body, 0, 16, &some_header(), 300, &template);
    assert!(!truncated);
    assert_eq!(records.len(), 2);
    assert_eq!(records[0].counters, vec![counter("rx_bytes", 1), counter("tx_bytes", 2)]);
    assert_eq!(records[1].counters, vec![counter("rx_bytes", 3), counter("tx_bytes", 4)]);
    assert_eq!(records[1].export_time, records[0].export_time);
    assert_eq!(records[1].sequence_number, records[0].sequence_number);
}

#[test]
fn records_before_a_truncated_one_are_kept() {
    let template = Template { fields: rx_tx_fields(), revision: 2 };
    let body = [0u8, 0, 0, 1, 0, 0, 0, 2, 0, 0, 0];
    let (records, truncated) = decode_data_set(&body, 0, 11, &some_header(), 300, &template);
    assert!(truncated);
    assert_eq!(records.len(), 1);
    assert_eq!(records[0].counters, vec![counter("rx_bytes", 1), counter("tx_bytes", 2)]);
}

#[test]
fn empty_data_set_has_no_record_and_no_diagnostic() {
    let template = Template { fields: rx_tx_fields(), revision: 2 };
    let (records, truncated) = decode_data_set(&[], 0, 0, &some_header(), 300, &template);
    assert!(records.is_empty());
    assert!(!truncated);
}

#[test]
fn template_without_fields_decodes_nothing() {
    let template = Template { fields: Vec::new(), revision: 2 };
    let (records, truncated) =
        decode_data_set(&RECORD_5_7, 0, 8, &some_header(), 300, &template);
    assert!(records.is_empty());
    assert!(truncated);
}

#[test]
fn data_set_with_variable_length_fields() {
    let template = Template {
        fields: vec![field(1, VARIABLE_LENGTH, "v"), field(2, 2, "f")],
        revision: 1,
    };
    let body = [2u8, 0x01, 0x00, 0x00, 0x09, 0u8, 0x00, 0x07];
    let (records, truncated) = decode_data_set(&body, 0, 8, &some_header(), 300, &template);
    assert!(!truncated);
    assert_eq!(records.len(), 2);
    assert_eq!(records[0].counters, vec![counter("v", 0x100), counter("f", 9)]);
    assert_eq!(records[1].counters, vec![counter("v", 0), counter("f", 7)]);
}

#[test]
fn template_record_is_parsed_with_synthesized_names() {
    let body = [0x01u8, 0x00, 0x00, 0x02, 0x00, 0x01, 0x00, 0x04, 0x00, 0x96, 0xff, 0xff];
    let (id, fields, next) = parse_template_record(&body, 0, body.len(), 2).unwrap();
    assert_eq!(id, 256);
    assert_eq!(next, 12);
    assert_eq!(fields, vec![field(1, 4, "ie_1"), field(150, VARIABLE_LENGTH, "ie_150")]);
}

#[test]
fn enterprise_field_specifier_takes_eight_bytes() {
    let body = [
        0x01u8, 0x01, 0x00, 0x02, 0x80, 0x05, 0x00, 0x08, 0x00, 0x00, 0x12, 0x34, 0x00, 0x02,
        0x00, 0x04,
    ];
    let (id, fields, next) = parse_template_record(&body, 0, body.len(), 2).unwrap();
    assert_eq!(id, 257);
    assert_eq!(next, 16);
    assert_eq!(fields, vec![field(0x8005, 8, "ie_32773"), field(2, 4, "ie_2")]);
    assert_eq!(parse_template_record(&body, 0, 11, 2), None);
}

#[test]
fn template_record_cut_short_is_refused() {
    let body = [0x01u8, 0x00, 0x00, 0x02, 0x00, 0x01, 0x00, 0x04];
    assert_eq!(parse_template_record(&body, 0, body.len(), 2), None);
    assert_eq!(parse_template_record(&body, 0, 3, 2), None);
    assert_eq!(parse_template_record(&body, 8, 8, 2), None);
}

#[test]
fn template_record_without_fields() {
    let body = [0x01u8, 0x00, 0x00, 0x00];
    assert_eq!(parse_template_record(&body, 0, 4, 2), Some((256, Vec::new(), 4)));
}

#[test]
fn from_specifier_names_the_field_by_its_element() {
    assert_eq!(FieldSpec::from_specifier(0, 4), field(0, 4, "ie_0"));
    assert_eq!(FieldSpec::from_specifier(65535, 1), field(65535, 1, "ie_65535"));
}

#[test]
fn table_reflects_the_latest_definition() {
    let mut table = TemplateTable::new();
    assert_eq!(table.issued(), 0);
    assert!(table.lookup(1, 256).is_none());
    assert_eq!(table.define(1, 256, rx_tx_fields()), 1);
    assert_eq!(table.define(1, 256, vec![field(9, 8, "drops")]), 2);
    let found = table.lookup(1, 256).unwrap();
    assert_eq!(found.fields, vec![field(9, 8, "drops")]);
    assert_eq!(found.revision, 2);
    assert_eq!(table.issued(), 2);
}

#[test]
fn table_keys_are_domain_and_id() {
    let mut table = TemplateTable::new();
    table.define(1, 256, rx_tx_fields());
    table.define(2, 256, vec![field(9, 8, "drops")]);
    table.define(1, 257, Vec::new());
    assert_eq!(table.lookup(1, 256).unwrap().revision, 1);
    assert_eq!(table.lookup(2, 256).unwrap().revision, 2);
    assert_eq!(table.lookup(1, 257).unwrap().revision, 3);
    assert!(table.lookup(2, 257).is_none());
    assert!(table.lookup(0, 256).is_none());
    assert!(table.lookup(65536, 0).is_none());
}

#[test]
fn withdrawn_template_is_gone_until_redefined() {
    let mut table = TemplateTable::new();
    table.define(1, 256, rx_tx_fields());
    assert!(table.withdraw(1, 256));
    assert!(table.lookup(1, 256).is_none());
    assert!(!table.withdraw(1, 256));
    table.apply(define(1, 256, rx_tx_fields()));
    assert_eq!(table.lookup(1, 256).unwrap().revision, 2);
    table.apply(withdraw(1, 256));
    assert!(table.lookup(1, 256).is_none());
    assert_eq!(table.issued(), 2);
}

#[test]
fn template_precedence() {
    let mut engine = IpfixEngine::new();
    engine.handle_template(define(3, 256, vec![field(1, 8, "old")]));
    engine.handle_template(define(3, 256, rx_tx_fields()));
    let records = take(&mut engine, &message(1, 1, 3, &[set(256, &RECORD_5_7)]));
    assert_eq!(records.len(), 1);
    assert_eq!(records[0].counters, vec![counter("rx_bytes", 5), counter("tx_bytes", 7)]);
    assert_eq!(records[0].template_revision, 2);

    engine.handle_template(withdraw(3, 256));
    let records = take(&mut engine, &message(1, 2, 3, &[set(256, &RECORD_5_7)]));
    assert!(records.is_empty());
    assert_eq!(engine.diagnostics().unknown_template_sets, 1);

    engine.handle_template(define(3, 256, vec![field(1, 8, "wide")]));
    let records = take(&mut engine, &message(1, 3, 3, &[set(256, &RECORD_5_7)]));
    assert_eq!(records.len(), 1);
    assert_eq!(records[0].counters, vec![counter("wide", 0x0000000500000007)]);
    assert_eq!(records[0].template_revision, 3);
}

#[test]
fn in_band_template_set_defines_like_an_update() {
    let template_record = [0x01u8, 0x00, 0x00, 0x02, 0x00, 0x01, 0x00, 0x04, 0x00, 0x02, 0x00, 0x04];
    let mut engine = IpfixEngine::new();
    engine.handle_template(define(3, 256, vec![field(1, 8, "old")]));
    let records = take(&mut engine, &message(
        1,
        1,
        3,
        &[set(2, &template_record), set(256, &RECORD_5_7)],
    ));
    assert_eq!(records.len(), 1);
    assert_eq!(records[0].counters, vec![counter("ie_1", 5), counter("ie_2", 7)]);
    assert_eq!(records[0].template_revision, 2);
    let found = engine.table().lookup(3, 256).unwrap();
    assert_eq!(found.fields, vec![field(1, 4, "ie_1"), field(2, 4, "ie_2")]);

    let mut other = IpfixEngine::new();
    other.handle_template(define(3, 256, vec![field(1, 8, "old")]));
    other.handle_template(define(3, 256, vec![field(1, 4, "ie_1"), field(2, 4, "ie_2")]));
    assert_eq!(other.table().lookup(3, 256), engine.table().lookup(3, 256));

    engine.handle_template(define(3, 256, rx_tx_fields()));
    let records = take(&mut engine, &message(1, 2, 3, &[set(256, &RECORD_5_7)]));
    assert_eq!(records[0].counters, vec![counter("rx_bytes", 5), counter("tx_bytes", 7)]);
}

#[test]
fn template_set_is_bound_to_the_domain_of_its_frame() {
    let template_record = [0x01u8, 0x00, 0x00, 0x01, 0x00, 0x01, 0x00, 0x04];
    let mut engine = IpfixEngine::new();
    take(&mut engine, &message(1, 1, 8, &[set(2, &template_record)]));
    assert!(engine.table().lookup(8, 256).is_some());
    assert!(engine.table().lookup(3, 256).is_none());
    let records = take(&mut engine, &message(1, 1, 3, &[set(256, &[0, 0, 0, 1])]));
    assert!(records.is_empty());
    let records = take(&mut engine, &message(1, 2, 8, &[set(256, &[0, 0, 0, 1])]));
    assert_eq!(records.len(), 1);
}

#[test]
fn template_set_with_several_records_and_a_cut_one() {
    let mut body = vec![0x01u8, 0x00, 0x00, 0x01, 0x00, 0x01, 0x00, 0x04];
    body.extend_from_slice(&[0x01, 0x01, 0x00, 0x01, 0x00, 0x02, 0x00, 0x02]);
    body.extend_from_slice(&[0x01, 0x02, 0x00, 0x03]);
    let mut engine = IpfixEngine::new();
    let records = take(&mut engine, &message(1, 1, 3, &[set(2, &body)]));
    assert!(records.is_empty());
    assert!(engine.table().lookup(3, 256).is_some());
    assert_eq!(engine.table().lookup(3, 257).unwrap().fields, vec![field(2, 2, "ie_2")]);
    assert!(engine.table().lookup(3, 258).is_none());
    assert_eq!(engine.diagnostics().malformed_template_sets, 1);
    assert_eq!(engine.table().issued(), 2);
}

#[test]
fn robustness_to_unknown_templates() {
    let mut engine = IpfixEngine::new();
    engine.handle_template(define(3, 256, rx_tx_fields()));
    let frame = message(5, 6, 3, &[set(999, &[1, 2, 3, 4]), set(256, &RECORD_5_7)]);
    let records = take(&mut engine, &frame);
    assert_eq!(records.len(), 1);
    assert_eq!(records[0].template_id, 256);
    assert_eq!(records[0].counters, vec![counter("rx_bytes", 5), counter("tx_bytes", 7)]);
    let counts = engine.diagnostics();
    assert_eq!(counts.unknown_template_sets, 1);
    assert_eq!(counts.frames_received, 1);
    assert_eq!(counts.frames_dropped, 0);
}

#[test]
fn unknown_template_alone_gives_no_record() {
    let mut engine = IpfixEngine::new();
    let records = take(&mut engine, &message(5, 6, 3, &[set(256, &RECORD_5_7)]));
    assert!(records.is_empty());
    assert_eq!(engine.diagnostics().unknown_template_sets, 1);
}

#[test]
fn template_of_another_domain_is_unknown() {
    let mut engine = IpfixEngine::new();
    engine.handle_template(define(4, 256, rx_tx_fields()));
    let records = take(&mut engine, &message(5, 6, 3, &[set(256, &RECORD_5_7)]));
    assert!(records.is_empty());
    assert_eq!(engine.diagnostics().unknown_template_sets, 1);
}

#[test]
fn truncated_record_in_a_frame_is_one_diagnostic() {
    let mut engine = IpfixEngine::new();
    engine.handle_template(define(3, 256, rx_tx_fields()));
    let records = take(&mut engine, &message(5, 6, 3, &[set(256, &[0, 0, 0, 5, 0, 0])]));
    assert!(records.is_empty());
    let counts = engine.diagnostics();
    assert_eq!(counts.truncated_records, 1);
    assert_eq!(counts.unknown_template_sets, 0);
    assert_eq!(counts.malformed_sets, 0);
    assert_eq!(counts.frames_dropped, 0);
}

#[test]
fn malformed_header_drops_the_whole_frame() {
    let mut engine = IpfixEngine::new();
    engine.handle_template(define(3, 256, rx_tx_fields()));
    let mut frame = message(5, 6, 3, &[set(256, &RECORD_5_7)]);
    frame[3] += 1;
    assert!(take(&mut engine, &frame).is_empty());
    assert!(take(&mut engine, &[1, 2, 3]).is_empty());
    let counts = engine.diagnostics();
    assert_eq!(counts.frames_received, 2);
    assert_eq!(counts.frames_dropped, 2);
    assert_eq!(engine.last_sequence(3), None);
    frame[3] -= 1;
    assert_eq!(take(&mut engine, &frame).len(), 1);
    assert_eq!(engine.diagnostics().frames_dropped, 2);
    assert_eq!(engine.last_sequence(3), Some(6));
}

#[test]
fn malformed_set_ends_the_walk_and_keeps_what_came_before() {
    let mut engine = IpfixEngine::new();
    engine.handle_template(define(3, 256, rx_tx_fields()));
    let mut bad = set(256, &RECORD_5_7);
    bad[3] = 200;
    let frame = message(5, 6, 3, &[set(256, &RECORD_5_7), bad, set(256, &RECORD_5_7)]);
    let records = take(&mut engine, &frame);
    assert_eq!(records.len(), 1);
    assert_eq!(engine.diagnostics().malformed_sets, 1);

    let mut short = set(256, &RECORD_5_7);
    short[3] = 3;
    let records = take(&mut engine, &message(5, 7, 3, &[short]));
    assert!(records.is_empty());
    assert_eq!(engine.diagnostics().malformed_sets, 2);

    let mut frame = message(5, 8, 3, &[set(256, &RECORD_5_7)]);
    frame.extend_from_slice(&[1, 0]);
    let len = frame.len() as u16;
    frame[2..4].copy_from_slice(&len.to_be_bytes());
    let records = take(&mut engine, &frame);
    assert_eq!(records.len(), 1);
    assert_eq!(engine.diagnostics().malformed_sets, 3);
    assert_eq!(engine.diagnostics().frames_dropped, 0);
}

#[test]
fn frame_without_sets_is_taken() {
    let mut engine = IpfixEngine::new();
    assert!(take(&mut engine, &message(5, 6, 3, &[])).is_empty());
    let mut expected = Diagnostics::new();
    expected.receive();
    assert_eq!(engine.diagnostics(), expected);
    assert_eq!(engine.last_sequence(3), Some(6));
}

#[test]
fn sequence_numbers_are_tracked_per_domain() {
    let mut engine = IpfixEngine::new();
    take(&mut engine, &message(5, 10, 3, &[]));
    take(&mut engine, &message(5, 4, 9, &[]));
    take(&mut engine, &message(5, 11, 3, &[]));
    assert_eq!(engine.diagnostics().sequence_regressions, 0);
    take(&mut engine, &message(5, 11, 3, &[]));
    assert_eq!(engine.diagnostics().sequence_regressions, 0);
    take(&mut engine, &message(5, 2, 3, &[]));
    assert_eq!(engine.diagnostics().sequence_regressions, 1);
    assert_eq!(engine.last_sequence(3), Some(2));
    assert_eq!(engine.last_sequence(9), Some(4));
    assert_eq!(engine.last_sequence(1), None);
}

#[test]
fn regressed_frame_is_decoded_all_the_same() {
    let mut engine = IpfixEngine::new();
    engine.handle_template(define(3, 256, rx_tx_fields()));
    take(&mut engine, &message(5, 10, 3, &[]));
    let records = take(&mut engine, &message(5, 1, 3, &[set(256, &RECORD_5_7)]));
    assert_eq!(records.len(), 1);
    assert_eq!(engine.diagnostics().sequence_regressions, 1);
}

#[test]
fn no_frame_is_skipped() {
    let mut engine = IpfixEngine::new();
    engine.handle_template(define(3, 256, rx_tx_fields()));
    let frames = vec![
        message(5, 1, 3, &[set(256, &[0, 0, 0, 1, 0, 0, 0, 2])]),
        vec![0u8; 5],
        message(5, 2, 3, &[set(700, &[0, 0])]),
        message(5, 3, 3, &[set(256, &[0, 0, 0, 3, 0, 0, 0, 4, 0, 0, 0, 5, 0, 0, 0, 6])]),
    ];
    let outcome = engine.handle_frames(&frames);
    let records = outcome.records;
    assert_eq!(
        outcome.notes,
        vec![
            note(Diagnostic::FrameDropped, 0, 0, 0, 5),
            note(Diagnostic::UnknownTemplate, 3, 700, 20, 2),
        ]
    );
    let values: Vec<u64> = records.iter().map(|r| r.counters[0].value).collect();
    assert_eq!(values, vec![1, 3, 5]);
    let sequences: Vec<u32> = records.iter().map(|r| r.sequence_number).collect();
    assert_eq!(sequences, vec![1, 3, 3]);
    let counts = engine.diagnostics();
    assert_eq!(counts.frames_received, 4);
    assert_eq!(counts.frames_dropped, 1);
    assert_eq!(counts.unknown_template_sets, 1);

    let mut one_by_one = IpfixEngine::new();
    one_by_one.handle_template(define(3, 256, rx_tx_fields()));
    let mut collected = Vec::new();
    for frame in &frames {
        collected.extend(take(&mut one_by_one, frame));
    }
    assert_eq!(collected, records);
    assert_eq!(one_by_one.diagnostics(), counts);
}

#[test]
fn events_drive_the_engine() {
    let mut engine = IpfixEngine::new();
    let step = engine.handle_event(DecoderEvent::Template(define(3, 256, rx_tx_fields())));
    assert!(step.proceed);
    assert!(step.records.is_empty());
    let step = engine.handle_event(DecoderEvent::Frame(message(
        5,
        6,
        3,
        &[set(256, &RECORD_5_7)],
    )));
    assert!(step.proceed);
    assert_eq!(step.records.len(), 1);
    let step = engine.handle_event(DecoderEvent::Frame(vec![1, 2, 3]));
    assert!(step.proceed);
    assert!(step.records.is_empty());
    assert_eq!(step.notes, vec![note(Diagnostic::FrameDropped, 0, 0, 0, 3)]);
    let before = engine.diagnostics();
    let step = engine.handle_event(DecoderEvent::TemplatesClosed);
    assert!(!step.proceed);
    assert!(step.records.is_empty());
    let step = engine.handle_event(DecoderEvent::FramesClosed);
    assert!(!step.proceed);
    assert_eq!(engine.diagnostics(), before);
    assert!(engine.table().lookup(3, 256).is_some());
}

#[test]
fn new_engine_is_empty() {
    let engine = IpfixEngine::new();
    assert_eq!(engine.diagnostics(), Diagnostics::new());
    assert_eq!(engine.table().issued(), 0);
    assert_eq!(engine.last_sequence(0), None);
}

#[test]
fn notes_tell_where_the_dropped_bytes_lie() {
    let mut engine = IpfixEngine::new();
    engine.handle_template(define(3, 256, rx_tx_fields()));
    engine.handle_frame(&message(5, 9, 3, &[]));
    let template_record_cut = [0x01u8, 0x02, 0x00, 0x03];
    let mut bad = set(256, &RECORD_5_7);
    bad[3] = 200;
    let frame = message(
        5,
        6,
        3,
        &[
            set(256, &[0, 0, 0, 5, 0, 0]),
            set(999, &[1, 2, 3]),
            set(2, &template_record_cut),
            set(256, &RECORD_5_7),
            bad,
        ],
    );
    let outcome = engine.handle_frame(&frame);
    assert_eq!(outcome.records.len(), 1);
    assert_eq!(
        outcome.notes,
        vec![
            note(Diagnostic::SequenceRegression, 3, 0, 0, frame.len()),
            note(Diagnostic::TruncatedRecord, 3, 256, 20, 6),
            note(Diagnostic::UnknownTemplate, 3, 999, 30, 3),
            note(Diagnostic::MalformedTemplateSet, 3, 2, 37, 4),
            note(Diagnostic::MalformedSet, 3, 256, 53, 12),
        ]
    );
    let counts = engine.diagnostics();
    assert_eq!(counts.sequence_regressions, 1);
    assert_eq!(counts.truncated_records, 1);
    assert_eq!(counts.unknown_template_sets, 1);
    assert_eq!(counts.malformed_template_sets, 1);
    assert_eq!(counts.malformed_sets, 1);
    assert_eq!(counts.frames_dropped, 0);
    assert_eq!(counts.frames_received, 2);
}

#[test]
fn set_header_cut_short_is_noted_without_an_id() {
    let mut engine = IpfixEngine::new();
    let mut frame = message(5, 8, 3, &[]);
    frame.extend_from_slice(&[1, 0, 0]);
    let len = frame.len() as u16;
    frame[2..4].copy_from_slice(&len.to_be_bytes());
    let outcome = engine.handle_frame(&frame);
    assert!(outcome.records.is_empty());
    assert_eq!(outcome.notes, vec![note(Diagnostic::MalformedSet, 3, 0, 16, 3)]);
}

#[test]
fn clean_frame_has_no_note() {
    let mut engine = IpfixEngine::new();
    engine.handle_template(define(3, 256, rx_tx_fields()));
    let outcome = engine.handle_frame(&message(5, 6, 3, &[set(256, &RECORD_5_7)]));
    assert_eq!(outcome.records.len(), 1);
    assert!(outcome.notes.is_empty());
    let mut counts = Diagnostics::new();
    counts.receive();
    assert_eq!(engine.diagnostics(), counts);
}

#[test]
fn counts_follow_the_notes() {
    let mut counts = Diagnostics::new();
    counts.note(Diagnostic::UnknownTemplate);
    counts.note(Diagnostic::UnknownTemplate);
    counts.note(Diagnostic::FrameDropped);
    counts.note(Diagnostic::MalformedSet);
    counts.note(Diagnostic::MalformedTemplateSet);
    counts.note(Diagnostic::TruncatedRecord);
    counts.note(Diagnostic::SequenceRegression);
    counts.receive();
    assert_eq!(
        counts,
        Diagnostics {
            frames_received: 1,
            frames_dropped: 1,
            malformed_sets: 1,
            malformed_template_sets: 1,
            unknown_template_sets: 2,
            truncated_records: 1,
            sequence_regressions: 1,
        }
    );
}

#[test]
fn counts_stay_at_the_largest_value() {
    let mut counts = Diagnostics::new();
    counts.frames_received = u64::MAX;
    counts.unknown_template_sets = u64::MAX - 1;
    counts.receive();
    counts.note(Diagnostic::UnknownTemplate);
    counts.note(Diagnostic::UnknownTemplate);
    assert_eq!(counts.frames_received, u64::MAX);
    assert_eq!(counts.unknown_template_sets, u64::MAX);
}

#[test]
fn late_template_costs_only_the_data_before_it() {
    let mut engine = IpfixEngine::new();
    let frame = message(5, 1, 3, &[set(256, &RECORD_5_7)]);
    assert!(take(&mut engine, &frame).is_empty());
    assert!(take(&mut engine, &frame).is_empty());
    engine.handle_template(define(3, 256, rx_tx_fields()));
    let records = take(&mut engine, &frame);
    assert_eq!(records.len(), 1);
    assert_eq!(records[0].counters, vec![counter("rx_bytes", 5), counter("tx_bytes", 7)]);
    let counts = engine.diagnostics();
    assert_eq!(counts.unknown_template_sets, 2);
    assert_eq!(counts.frames_received, 3);
    assert_eq!(counts.frames_dropped, 0);
}

#[test]
fn template_defined_in_a_frame_serves_the_sets_behind_it() {
    let template_record = [0x01u8, 0x00, 0x00, 0x01, 0x00, 0x07, 0x00, 0x02];
    let mut engine = IpfixEngine::new();
    let frame = message(
        5,
        1,
        3,
        &[set(256, &[0, 9]), set(2, &template_record), set(256, &[0, 9, 1, 0])],
    );
    let outcome = engine.handle_frame(&frame);
    let values: Vec<u64> = outcome.records.iter().map(|r| r.counters[0].value).collect();
    assert_eq!(values, vec![9, 256]);
    assert_eq!(outcome.notes, vec![note(Diagnostic::UnknownTemplate, 3, 256, 20, 2)]);
    assert_eq!(outcome.records[0].counters[0].name, "ie_7");
}

#[test]
fn revision_changes_with_every_definition() {
    let mut engine = IpfixEngine::new();
    let frame = message(5, 1, 3, &[set(256, &RECORD_5_7)]);
    engine.handle_template(define(3, 256, rx_tx_fields()));
    let first = take(&mut engine, &frame)[0].template_revision;
    engine.handle_template(define(9, 300, Vec::new()));
    engine.handle_template(withdraw(9, 300));
    engine.handle_template(define(3, 256, rx_tx_fields()));
    let second = take(&mut engine, &frame)[0].template_revision;
    assert_eq!(first, 1);
    assert_eq!(second, 3);
}

#[test]
fn options_template_record_has_a_scope_count_before_its_fields() {
    let body = [
        0x01u8, 0x04, 0x00, 0x02, 0x00, 0x01, 0x00, 0x95, 0x00, 0x04, 0x00, 0x29, 0x00, 0x08,
    ];
    let (id, fields, next) = parse_template_record(&body, 0, body.len(), 3).unwrap();
    assert_eq!(id, 260);
    assert_eq!(next, 14);
    assert_eq!(fields, vec![field(149, 4, "ie_149"), field(41, 8, "ie_41")]);
    assert_eq!(parse_template_record(&body, 0, 13, 3), None);
    assert_eq!(parse_template_record(&body, 0, 5, 3), None);
}

#[test]
fn options_template_set_defines_templates_too() {
    let options_record = [
        0x01u8, 0x04, 0x00, 0x02, 0x00, 0x01, 0x00, 0x95, 0x00, 0x04, 0x00, 0x29, 0x00, 0x04,
    ];
    let mut engine = IpfixEngine::new();
    let outcome = engine.handle_frame(&message(
        5,
        1,
        3,
        &[set(3, &options_record), set(260, &RECORD_5_7)],
    ));
    assert!(outcome.notes.is_empty());
    assert_eq!(outcome.records.len(), 1);
    assert_eq!(outcome.records[0].counters, vec![counter("ie_149", 5), counter("ie_41", 7)]);
    assert_eq!(outcome.records[0].template_revision, 1);

    let outcome = engine.handle_frame(&message(5, 2, 3, &[set(3, &options_record[..9])]));
    assert_eq!(outcome.notes, vec![note(Diagnostic::MalformedTemplateSet, 3, 3, 20, 9)]);
}

#[test]
fn set_ids_below_the_data_range_are_data_sets_unless_they_hold_templates() {
    let mut engine = IpfixEngine::new();
    let outcome = engine.handle_frame(&message(5, 1, 3, &[set(4, &[1, 2]), set(0, &[])]));
    assert!(outcome.records.is_empty());
    assert_eq!(
        outcome.notes,
        vec![
            note(Diagnostic::UnknownTemplate, 3, 4, 20, 2),
            note(Diagnostic::UnknownTemplate, 3, 0, 26, 0),
        ]
    );
    engine.handle_template(define(3, 4, vec![field(1, 2, "small")]));
    let records = take(&mut engine, &message(5, 2, 3, &[set(4, &[1, 2])]));
    assert_eq!(records[0].counters, vec![counter("small", 0x0102)]);
}
