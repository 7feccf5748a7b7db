use madsterm::assembler::Utf8Assembler;
use madsterm::reader::{exit_event_name, output_event_name, reader_step, ReadEvent};

fn feed(chunks: &[&[u8]]) -> Vec<u8> {
    let mut acc = Utf8Assembler::new();
    let mut all: Vec<u8> = Vec::new();
    for chunk in chunks {
        for piece in acc.push_bytes(chunk) {
            all.extend_from_slice(&piece);
        }
    }
    for piece in acc.flush() {
        all.extend_from_slice(&piece);
    }
    all
}

#[test]
fn whole_valid_chunk_passes_through() {
    let mut acc = Utf8Assembler::new();
    let out = acc.push_bytes("hello world".as_bytes());
    assert_eq!(out.len(), 1);
    assert_eq!(out[0], "hello world".as_bytes());
    assert!(acc.flush().is_empty());
}

#[test]
fn three_byte_codepoint_split_one_plus_two() {
    // "€" is three bytes; splitting it 1+2 must reassemble it exactly.
    let bytes = "€".as_bytes();
    let mut acc = Utf8Assembler::new();
    let first = acc.push_bytes(&bytes[..1]);
    assert!(first.is_empty(), "no text may be surfaced from a split codepoint");
    let second = acc.push_bytes(&bytes[1..]);
    assert_eq!(second.len(), 1);
    assert_eq!(second[0], bytes);
    assert!(acc.flush().is_empty());
}

#[test]
fn every_split_of_a_valid_stream_is_lossless() {
    let text = "aé漢😀 tail";
    let bytes = text.as_bytes();
    for i in 0..=bytes.len() {
        let out = feed(&[&bytes[..i], &bytes[i..]]);
        assert_eq!(out, bytes, "split at byte {}", i);
    }
}

#[test]
fn every_three_way_split_is_lossless() {
    let text = "x€y𝄞z";
    let bytes = text.as_bytes();
    for i in 0..=bytes.len() {
        for j in i..=bytes.len() {
            let out = feed(&[&bytes[..i], &bytes[i..j], &bytes[j..]]);
            assert_eq!(out, bytes, "split at bytes {} and {}", i, j);
        }
    }
}

#[test]
fn long_malformed_run_is_replaced_immediately() {
    // Six bytes that cannot open an encoding: longer than any boundary
    // artifact, so they are surfaced at once, each as one replacement.
    let mut acc = Utf8Assembler::new();
    let out = acc.push_bytes(&[b'A', 0xff, 0xff, 0xff, 0xff, 0xff]);
    assert_eq!(out.len(), 2);
    assert_eq!(out[0], b"A");
    assert_eq!(out[1], "�����".as_bytes());
    assert!(acc.flush().is_empty());
}

#[test]
fn truncated_codepoint_at_end_of_stream_is_replaced_once() {
    let mut acc = Utf8Assembler::new();
    // The first two bytes of "€", never completed.
    let held = acc.push_bytes(&[0xe2, 0x82]);
    assert!(held.is_empty());
    let out = acc.flush();
    assert_eq!(out.len(), 1);
    assert_eq!(out[0], "�".as_bytes());
}

#[test]
fn reader_step_surfaces_data_and_ends_on_eof() {
    let mut acc = Utf8Assembler::new();
    let step1 = reader_step(&mut acc, &ReadEvent::Data("hi".as_bytes().to_vec()));
    assert!(!step1.session_ended);
    assert_eq!(step1.texts.len(), 1);
    assert_eq!(step1.texts[0], b"hi");
    let step2 = reader_step(&mut acc, &ReadEvent::Data(Vec::new()));
    assert!(step2.session_ended);
    assert!(step2.texts.is_empty());
}

#[test]
fn reader_step_eof_flushes_residual() {
    let mut acc = Utf8Assembler::new();
    let step1 = reader_step(&mut acc, &ReadEvent::Data(vec![0xe2, 0x82]));
    assert!(!step1.session_ended);
    assert!(step1.texts.is_empty());
    let step2 = reader_step(&mut acc, &ReadEvent::Data(Vec::new()));
    assert!(step2.session_ended);
    assert_eq!(step2.texts.len(), 1);
    assert_eq!(step2.texts[0], "�".as_bytes());
}

#[test]
fn reader_step_error_discards_residual() {
    let mut acc = Utf8Assembler::new();
    let _ = reader_step(&mut acc, &ReadEvent::Data(vec![0xe2, 0x82]));
    let step = reader_step(&mut acc, &ReadEvent::Failed);
    assert!(step.session_ended);
    assert!(step.texts.is_empty());
}

#[test]
fn event_names_carry_the_identifier() {
    assert_eq!(output_event_name("abc-123"), "pty-output-abc-123");
    assert_eq!(exit_event_name("abc-123"), "pty-exit-abc-123");
}
