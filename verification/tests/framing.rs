use chat_relay::framing::FrameBuffer;

#[test]
fn partial_frames_accumulate_across_reads() {
    let mut fb = FrameBuffer::new();
    let frames = fb.push_chunk(b"hel");
    assert!(frames.is_empty());
    assert_eq!(fb.pending(), 3);
    let frames = fb.push_chunk(b"lo\nwo");
    assert_eq!(frames, vec![b"hello\n".to_vec()]);
    assert_eq!(fb.pending(), 2);
    let frames = fb.push_chunk(b"rld\n");
    assert_eq!(frames, vec![b"world\n".to_vec()]);
    assert_eq!(fb.pending(), 0);
}

#[test]
fn one_chunk_may_hold_several_frames() {
    let mut fb = FrameBuffer::new();
    let frames = fb.push_chunk(b"a\nbb\nccc\ntail");
    assert_eq!(
        frames,
        vec![b"a\n".to_vec(), b"bb\n".to_vec(), b"ccc\n".to_vec()]
    );
    assert_eq!(fb.pending(), 4);
}

#[test]
fn a_bare_newline_is_a_frame() {
    let mut fb = FrameBuffer::new();
    let frames = fb.push_chunk(b"\n");
    assert_eq!(frames, vec![b"\n".to_vec()]);
}

#[test]
fn without_a_delimiter_nothing_is_emitted() {
    let mut fb = FrameBuffer::new();
    let frames = fb.push_chunk(b"no delimiter here");
    assert!(frames.is_empty());
    assert_eq!(fb.pending(), 17);
}

#[test]
fn empty_chunk_changes_nothing() {
    let mut fb = FrameBuffer::new();
    fb.push_chunk(b"abc");
    let frames = fb.push_chunk(b"");
    assert!(frames.is_empty());
    assert_eq!(fb.pending(), 3);
}
