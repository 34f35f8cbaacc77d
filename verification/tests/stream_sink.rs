use serializers::{
    MemoryWriter, Seek, SeekPastEnd, SeekSerializer, Serializer, Write, WriteSerializer,
};

/// A destination that takes at most `chunk` bytes at a time, and none once
/// it holds `limit` bytes.
struct Chunked {
    taken: Vec<u8>,
    chunk: usize,
    limit: usize,
    calls: usize,
}

impl Chunked {
    fn new(chunk: usize) -> Self {
        Chunked { taken: Vec::new(), chunk, limit: usize::MAX, calls: 0 }
    }

    fn with_limit(chunk: usize, limit: usize) -> Self {
        Chunked { taken: Vec::new(), chunk, limit, calls: 0 }
    }
}

impl Write for Chunked {
    type Error = String;

    fn write(&mut self, bytes: &[u8]) -> Result<usize, String> {
        self.calls += 1;
        let room = self.limit - self.taken.len();
        let n = bytes.len().min(self.chunk).min(room);
        if n == 0 && !bytes.is_empty() {
            return Err(format!("full at {}", self.taken.len()));
        }
        self.taken.extend_from_slice(&bytes[..n]);
        Ok(n)
    }
}

/// A destination of fixed length that can seek within it.
struct Slab {
    bytes: [u8; 8],
    offset: usize,
}

impl Write for Slab {
    type Error = &'static str;

    fn write(&mut self, bytes: &[u8]) -> Result<usize, &'static str> {
        let n = bytes.len().min(self.bytes.len() - self.offset);
        if n == 0 && !bytes.is_empty() {
            return Err("slab is full");
        }
        self.bytes[self.offset..self.offset + n].copy_from_slice(&bytes[..n]);
        self.offset += n;
        Ok(n)
    }
}

impl Seek for Slab {
    fn seek(&mut self, target: usize) -> Result<(), &'static str> {
        if target > self.bytes.len() {
            return Err("seek past the slab");
        }
        self.offset = target;
        Ok(())
    }
}

#[test]
fn stream_sink_over_a_vector() {
    let mut serializer = WriteSerializer::new(Vec::new());
    assert_eq!(serializer.pos(), 0);
    assert!(serializer.write(&[0u8, 1u8, 2u8, 3u8]).is_ok());
    assert_eq!(serializer.pos(), 4);
    let buf = serializer.into_inner();
    assert_eq!(buf.len(), 4);
    assert_eq!(buf, vec![0u8, 1u8, 2u8, 3u8]);
}

#[test]
fn new_counts_from_zero_and_with_pos_from_the_given_offset() {
    let fresh = WriteSerializer::new(Vec::new());
    assert_eq!(fresh.pos(), 0);
    let mut resumed = WriteSerializer::with_pos(vec![7u8, 8, 9], 3);
    assert_eq!(resumed.pos(), 3);
    assert!(resumed.write(&[1, 2]).is_ok());
    assert_eq!(resumed.pos(), 5);
    assert_eq!(resumed.into_inner(), vec![7, 8, 9, 1, 2]);
}

#[test]
fn with_pos_takes_the_offset_on_trust() {
    let mut sink = WriteSerializer::with_pos(Vec::new(), 40);
    assert!(sink.write(&[1]).is_ok());
    assert_eq!(sink.pos(), 41);
    assert_eq!(sink.into_inner(), vec![1]);
}

#[test]
fn short_writes_deliver_everything_in_order() {
    let mut sink = WriteSerializer::new(Chunked::new(3));
    let bytes: Vec<u8> = (0u8..10).collect();
    assert_eq!(sink.write(&bytes), Ok(()));
    assert_eq!(sink.pos(), 10);
    let dest = sink.into_inner();
    assert_eq!(dest.taken, bytes);
    assert_eq!(dest.calls, 4);
}

#[test]
fn every_chunk_size_delivers_the_same_bytes() {
    let bytes: Vec<u8> = (0u8..23).map(|i| i.wrapping_mul(7)).collect();
    for chunk in 1..=30usize {
        let mut sink = WriteSerializer::with_pos(Chunked::new(chunk), 5);
        assert_eq!(sink.write(&bytes), Ok(()));
        assert_eq!(sink.pos(), 5 + bytes.len());
        let dest = sink.into_inner();
        assert_eq!(dest.taken, bytes);
        assert_eq!(dest.calls, (bytes.len() + chunk - 1) / chunk);
    }
}

#[test]
fn writes_in_a_row_reach_the_destination_in_order() {
    let mut sink = WriteSerializer::new(Chunked::new(2));
    assert_eq!(sink.write(&[1, 2, 3]), Ok(()));
    assert_eq!(sink.write(&[]), Ok(()));
    assert_eq!(sink.write(&[4, 5, 6, 7]), Ok(()));
    assert_eq!(sink.pos(), 7);
    assert_eq!(sink.into_inner().taken, vec![1, 2, 3, 4, 5, 6, 7]);
}

#[test]
fn empty_write_makes_no_call() {
    let mut sink = WriteSerializer::new(Chunked::new(3));
    assert_eq!(sink.write(&[]), Ok(()));
    assert_eq!(sink.pos(), 0);
    assert_eq!(sink.into_inner().calls, 0);
}

#[test]
fn error_is_passed_on_and_the_cursor_counts_what_was_taken() {
    let mut sink = WriteSerializer::new(Chunked::with_limit(3, 7));
    let bytes: Vec<u8> = (0u8..10).collect();
    assert_eq!(sink.write(&bytes), Err(String::from("full at 7")));
    assert_eq!(sink.pos(), 7);
    let dest = sink.into_inner();
    assert_eq!(dest.taken, vec![0, 1, 2, 3, 4, 5, 6]);
    assert_eq!(dest.calls, 4);
}

#[test]
fn error_on_the_first_call_leaves_the_cursor() {
    let mut sink = WriteSerializer::with_pos(Chunked::with_limit(3, 0), 11);
    assert_eq!(sink.write(&[1, 2]), Err(String::from("full at 0")));
    assert_eq!(sink.pos(), 11);
    assert!(sink.into_inner().taken.is_empty());
}

#[test]
fn stream_pos_is_the_same_however_often_it_is_read() {
    let mut sink = WriteSerializer::new(Vec::new());
    assert!(sink.write(&[1, 2, 3]).is_ok());
    assert_eq!(sink.pos(), 3);
    assert_eq!(sink.pos(), 3);
    assert_eq!(sink.pos(), 3);
}

#[test]
fn stream_seek_patches_earlier_bytes() {
    let mut sink = WriteSerializer::new(MemoryWriter::new());
    assert_eq!(sink.write(&[0, 1, 2, 3]), Ok(()));
    assert_eq!(sink.seek(1), Ok(()));
    assert_eq!(sink.pos(), 1);
    assert_eq!(sink.write(&[9, 9]), Ok(()));
    assert_eq!(sink.pos(), 3);
    assert_eq!(sink.seek(4), Ok(()));
    assert_eq!(sink.write(&[4, 5]), Ok(()));
    assert_eq!(sink.pos(), 6);
    assert_eq!(sink.into_inner().into_inner(), vec![0, 9, 9, 3, 4, 5]);
}

#[test]
fn stream_seek_error_is_passed_on_and_keeps_the_cursor() {
    let mut sink = WriteSerializer::new(MemoryWriter::new());
    assert_eq!(sink.write(&[0, 1, 2, 3]), Ok(()));
    assert_eq!(sink.seek(5), Err(SeekPastEnd { target: 5, len: 4 }));
    assert_eq!(sink.pos(), 4);
    assert_eq!(sink.write(&[4]), Ok(()));
    assert_eq!(sink.into_inner().into_inner(), vec![0, 1, 2, 3, 4]);
}

#[test]
fn stream_seek_over_a_destination_of_the_caller() {
    let mut sink = WriteSerializer::new(Slab { bytes: [0; 8], offset: 0 });
    assert_eq!(sink.write(&[1, 2, 3, 4]), Ok(()));
    assert_eq!(sink.seek(2), Ok(()));
    assert_eq!(sink.write(&[9, 9]), Ok(()));
    assert_eq!(sink.pos(), 4);
    assert_eq!(sink.seek(9), Err("seek past the slab"));
    assert_eq!(sink.pos(), 4);
    assert_eq!(sink.seek(6), Ok(()));
    assert_eq!(sink.write(&[5, 6, 7]), Err("slab is full"));
    assert_eq!(sink.pos(), 8);
    let slab = sink.into_inner();
    assert_eq!(slab.bytes, [1, 2, 9, 9, 0, 0, 5, 6]);
    assert_eq!(slab.offset, 8);
}

#[test]
fn vector_takes_every_byte_at_its_end() {
    let mut dest = vec![1u8, 2];
    assert_eq!(Write::write(&mut dest, &[3, 4, 5]), Ok(3));
    assert_eq!(Write::write(&mut dest, &[]), Ok(0));
    assert_eq!(dest, vec![1, 2, 3, 4, 5]);
}

#[test]
fn memory_writer_overwrites_and_grows() {
    let mut dest = MemoryWriter::new();
    assert_eq!(dest.write(&[1, 2, 3]), Ok(3));
    assert_eq!(dest.seek(2), Ok(()));
    assert_eq!(dest.write(&[7, 8, 9]), Ok(3));
    assert_eq!(dest.seek(0), Ok(()));
    assert_eq!(dest.write(&[]), Ok(0));
    assert_eq!(dest.write(&[6]), Ok(1));
    assert_eq!(dest.seek(5), Ok(()));
    assert_eq!(dest.seek(6), Err(SeekPastEnd { target: 6, len: 5 }));
    assert_eq!(dest.write(&[0]), Ok(1));
    assert_eq!(dest.into_inner(), vec![6, 2, 7, 8, 9, 0]);
}

#[test]
fn memory_writer_starts_empty() {
    let mut dest = MemoryWriter::new();
    assert_eq!(dest.seek(1), Err(SeekPastEnd { target: 1, len: 0 }));
    assert_eq!(dest.seek(0), Ok(()));
    assert_eq!(dest.into_inner(), Vec::<u8>::new());
}
