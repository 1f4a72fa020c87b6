//! The object container writer: a header with the schema and the codec's
//! name, then blocks of encoded records, each framed by a record count and a
//! payload length and closed by the writer's sync marker.
use vstd::prelude::*;
use vstd::slice::slice_to_vec;
use vstd::string::StringSliceAdditionalSpecFns;
use crate::codec::Codec;
use crate::error::Error;
use crate::zigzag::{encode_variable_len, varint, zigzag};

verus! {

/// Relies on rand::random: a value drawn from the thread-local generator.
/// Nothing is promised of the value.
pub assume_specification<T>[ rand::random::<T> ]() -> (r: T)
    where
        rand::distributions::Standard: rand::distributions::Distribution<T>,
;

/// The length of the sync marker that closes the header and every block.
pub const MARKER_LEN: usize = 16;

/// A signed integer as the format writes it: zigzag, then variable length.
pub open spec fn long_bytes(n: int) -> Seq<u8> {
    varint(zigzag(n))
}

/// A byte string as the format writes it: its length, then the bytes.
pub open spec fn bytes_field(b: Seq<u8>) -> Seq<u8> {
    long_bytes(b.len() as int) + b
}

/// The four bytes that open a container: "Obj" and version 1.
pub open spec fn magic() -> Seq<u8> {
    seq![79u8, 98, 106, 1]
}

/// The metadata key of the schema's JSON text: "avro.schema".
pub open spec fn schema_key() -> Seq<u8> {
    seq![97u8, 118, 114, 111, 46, 115, 99, 104, 101, 109, 97]
}

/// The metadata key of the codec's name: "avro.codec".
pub open spec fn codec_key() -> Seq<u8> {
    seq![97u8, 118, 114, 111, 46, 99, 111, 100, 101, 99]
}

/// The metadata map: one run of two entries, then the empty run that ends it.
pub open spec fn metadata(schema_json: Seq<u8>, codec_name: Seq<u8>) -> Seq<u8> {
    long_bytes(2) + bytes_field(schema_key()) + bytes_field(schema_json) + bytes_field(codec_key())
        + bytes_field(codec_name) + long_bytes(0)
}

/// The header: magic, metadata, sync marker.
pub open spec fn header_bytes(schema_json: Seq<u8>, codec: Codec, marker: Seq<u8>) -> Seq<u8> {
    magic() + metadata(schema_json, codec.name_spec()) + marker
}

/// One block: record count, payload length, payload, sync marker.
pub open spec fn block_bytes(count: nat, payload: Seq<u8>, marker: Seq<u8>) -> Seq<u8> {
    long_bytes(count as int) + long_bytes(payload.len() as int) + payload + marker
}

/// What a writer looks like from outside.
pub struct WriterView {
    pub schema: Seq<char>,
    pub schema_json: Seq<u8>,
    pub sink: Seq<u8>,
    pub codec: Codec,
    pub marker: Seq<u8>,
    pub has_header: bool,
}

/// The header bytes that the next block brings with it: the header if none
/// was written yet, else nothing.
pub open spec fn pending_header(v: WriterView) -> Seq<u8> {
    if v.has_header {
        Seq::empty()
    } else {
        header_bytes(v.schema_json, v.codec, v.marker)
    }
}

/// The bytes that writing one block appends to the sink.
pub open spec fn emitted(v: WriterView, count: nat, payload: Seq<u8>) -> Seq<u8> {
    pending_header(v) + block_bytes(count, payload, v.marker)
}

/// The writer after one block.
pub open spec fn after_block(v: WriterView, count: nat, payload: Seq<u8>) -> WriterView {
    WriterView {
        schema: v.schema,
        schema_json: v.schema_json,
        sink: v.sink + emitted(v, count, payload),
        codec: v.codec,
        marker: v.marker,
        has_header: true,
    }
}

/// The writer after its header.
pub open spec fn after_header(v: WriterView) -> WriterView {
    WriterView {
        schema: v.schema,
        schema_json: v.schema_json,
        sink: v.sink + header_bytes(v.schema_json, v.codec, v.marker),
        codec: v.codec,
        marker: v.marker,
        has_header: true,
    }
}

/// Every value of the batch was encoded.
pub open spec fn all_encoded(vs: Seq<Result<Vec<u8>, Error>>) -> bool {
    forall|i: int| 0 <= i < vs.len() ==> vs[i] is Ok
}

/// The value at `i` is the first of the batch that failed.
pub open spec fn first_failure(vs: Seq<Result<Vec<u8>, Error>>, i: int) -> bool {
    0 <= i < vs.len() && vs[i] is Err && forall|j: int| 0 <= j < i ==> vs[j] is Ok
}

/// The encoded values of the batch, concatenated in order.
pub open spec fn concat_encoded(vs: Seq<Result<Vec<u8>, Error>>) -> Seq<u8>
    decreases vs.len(),
{
    if vs.len() == 0 {
        Seq::empty()
    } else {
        concat_encoded(vs.drop_last()) + match vs.last() {
            Ok(b) => b@,
            Err(_) => Seq::empty(),
        }
    }
}

/// A writer that has written no header writes it with its first block and
/// never again: after two blocks the sink holds the header once, then the
/// two blocks, and the second block brings no header bytes.
pub proof fn lemma_header_once(v: WriterView, c1: nat, p1: Seq<u8>, c2: nat, p2: Seq<u8>)
    requires
        !v.has_header,
    ensures
        emitted(v, c1, p1) == header_bytes(v.schema_json, v.codec, v.marker) + block_bytes(
            c1,
            p1,
            v.marker,
        ),
        emitted(after_block(v, c1, p1), c2, p2) == block_bytes(c2, p2, v.marker),
        after_block(after_block(v, c1, p1), c2, p2).sink == v.sink + header_bytes(
            v.schema_json,
            v.codec,
            v.marker,
        ) + block_bytes(c1, p1, v.marker) + block_bytes(c2, p2, v.marker),
{
    let w = after_block(v, c1, p1);
    assert(pending_header(w) =~= Seq::<u8>::empty());
    assert(emitted(w, c2, p2) =~= block_bytes(c2, p2, v.marker));
    assert(after_block(w, c2, p2).sink =~= v.sink + header_bytes(v.schema_json, v.codec, v.marker)
        + block_bytes(c1, p1, v.marker) + block_bytes(c2, p2, v.marker));
}

/// The last sixteen bytes of the header and of every block are the writer's
/// marker, and writing a block leaves the marker as it was.
pub proof fn lemma_marker_consistency(v: WriterView, count: nat, payload: Seq<u8>)
    requires
        v.marker.len() == MARKER_LEN,
    ensures
        ({
            let h = header_bytes(v.schema_json, v.codec, v.marker);
            h.subrange(h.len() - MARKER_LEN, h.len() as int) == v.marker
        }),
        ({
            let b = block_bytes(count, payload, v.marker);
            b.subrange(b.len() - MARKER_LEN, b.len() as int) == v.marker
        }),
        after_block(v, count, payload).marker == v.marker,
{
    let h = header_bytes(v.schema_json, v.codec, v.marker);
    assert(h.subrange(h.len() - MARKER_LEN, h.len() as int) =~= v.marker);
    let b = block_bytes(count, payload, v.marker);
    assert(b.subrange(b.len() - MARKER_LEN, b.len() as int) =~= v.marker);
}

/// An empty batch still makes a block: the pending header, if any, then a
/// count of zero, the length of what the codec makes of no bytes, that
/// payload, and the marker.
pub proof fn lemma_empty_batch(v: WriterView, vs: Seq<Result<Vec<u8>, Error>>)
    requires
        vs.len() == 0,
    ensures
        all_encoded(vs),
        emitted(v, vs.len(), v.codec.compressed(concat_encoded(vs))) == pending_header(v) + seq![0u8]
            + long_bytes(v.codec.compressed(Seq::empty()).len() as int) + v.codec.compressed(
            Seq::empty(),
        ) + v.marker,
{
    assert(concat_encoded(vs) =~= Seq::<u8>::empty());
    assert(long_bytes(0) =~= seq![0u8]);
    let p = v.codec.compressed(Seq::empty());
    assert(emitted(v, 0, p) =~= pending_header(v) + seq![0u8] + long_bytes(p.len() as int) + p
        + v.marker);
}

/// Appends `b` to `out`.
fn put_bytes(out: &mut Vec<u8>, b: &[u8])
    ensures
        final(out)@ == old(out)@ + b@,
{
    let mut i: usize = 0;
    while i < b.len()
        invariant
            i <= b@.len(),
            out@ == old(out)@ + b@.take(i as int),
        decreases b@.len() - i,
    {
        out.push(b[i]);
        assert(b@.take(i as int + 1) =~= b@.take(i as int).push(b@[i as int]));
        i = i + 1;
    }
    assert(b@.take(b@.len() as int) =~= b@);
}

/// Appends the byte string `b`, length first.
fn put_bytes_field(out: &mut Vec<u8>, b: &[u8])
    ensures
        final(out)@ == old(out)@ + bytes_field(b@),
{
    encode_variable_len(b.len(), out);
    put_bytes(out, b);
    assert(final(out)@ =~= old(out)@ + bytes_field(b@));
}

/// Writes schema-tagged, compressed, sync-marked blocks of encoded records
/// into a byte sink, with the header before the first block.
pub struct Writer {
    schema: String,
    schema_json: Vec<u8>,
    sink: Vec<u8>,
    codec: Codec,
    marker: Vec<u8>,
    has_header: bool,
}

impl View for Writer {
    type V = WriterView;

    closed spec fn view(&self) -> WriterView {
        WriterView {
            schema: self.schema@,
            schema_json: self.schema_json@,
            sink: self.sink@,
            codec: self.codec,
            marker: self.marker@,
            has_header: self.has_header,
        }
    }
}

impl Writer {
    /// The marker has its full length.
    pub open spec fn wf(&self) -> bool {
        self@.marker.len() == MARKER_LEN
    }

    /// A writer that stores payloads uncompressed.
    pub fn new(schema: &str, writer: Vec<u8>) -> (r: Writer)
        ensures
            r.wf(),
            r@.schema == schema@,
            r@.schema_json == schema.spec_bytes(),
            r@.sink == writer@,
            r@.codec == Codec::Null,
            !r@.has_header,
    {
        Self::with_codec(schema, writer, Codec::Null)
    }

    /// A writer for the schema whose JSON text is `schema`, appending to
    /// `writer`, with a sync marker of random bytes.
    pub fn with_codec(schema: &str, writer: Vec<u8>, codec: Codec) -> (r: Writer)
        ensures
            r.wf(),
            r@.schema == schema@,
            r@.schema_json == schema.spec_bytes(),
            r@.sink == writer@,
            r@.codec == codec,
            !r@.has_header,
    {
        let mut marker: Vec<u8> = Vec::new();
        let mut k: usize = 0;
        while k < MARKER_LEN
            invariant
                k <= MARKER_LEN,
                marker@.len() == k,
            decreases MARKER_LEN - k,
        {
            marker.push(rand::random::<u8>());
            k = k + 1;
        }
        Writer {
            schema: schema.to_owned(),
            schema_json: slice_to_vec(schema.as_bytes()),
            sink: writer,
            codec,
            marker,
            has_header: false,
        }
    }

    /// The schema's JSON text.
    pub fn schema(&self) -> (r: &str)
        ensures
            r@ == self@.schema,
    {
        self.schema.as_str()
    }

    /// Writes the header and returns its length. The blocks written after it
    /// bring no header of their own; a second call writes a second header.
    pub fn header(&mut self) -> (r: Result<usize, Error>)
        requires
            old(self).wf(),
        ensures
            final(self).wf(),
            final(self)@ == after_header(old(self)@),
            r == Ok::<usize, Error>(header_bytes(old(self)@.schema_json, old(self)@.codec, old(self)@.marker).len() as usize),
    {
        let start = self.sink.len();
        let ghost v = self@;
        put_bytes(&mut self.sink, &[79u8, 98, 106, 1]);
        assert(self.sink@ =~= v.sink + magic());
        encode_variable_len(2, &mut self.sink);
        let schema_key_bytes: [u8; 11] = [97, 118, 114, 111, 46, 115, 99, 104, 101, 109, 97];
        put_bytes_field(&mut self.sink, &schema_key_bytes);
        put_bytes_field(&mut self.sink, self.schema_json.as_slice());
        let codec_key_bytes: [u8; 10] = [97, 118, 114, 111, 46, 99, 111, 100, 101, 99];
        put_bytes_field(&mut self.sink, &codec_key_bytes);
        let name = self.codec.name();
        put_bytes_field(&mut self.sink, name.as_slice());
        encode_variable_len(0, &mut self.sink);
        put_bytes(&mut self.sink, self.marker.as_slice());
        self.has_header = true;
        proof {
            assert(schema_key_bytes@ =~= schema_key());
            assert(codec_key_bytes@ =~= codec_key());
            assert(self.sink@ =~= v.sink + header_bytes(v.schema_json, v.codec, v.marker));
            assert(self@ == after_header(v));
        }
        Ok(self.sink.len() - start)
    }

    /// Writes one block of `num_values` records whose compressed payload is
    /// `payload`, with the header first if none was written yet; returns the
    /// number of bytes written.
    pub fn write_block(&mut self, num_values: usize, payload: &[u8]) -> (r: usize)
        requires
            old(self).wf(),
        ensures
            final(self).wf(),
            final(self)@ == after_block(old(self)@, num_values as nat, payload@),
            r == emitted(old(self)@, num_values as nat, payload@).len(),
    {
        let start = self.sink.len();
        let ghost v = self@;
        if !self.has_header {
            let _ = self.header();
        }
        let ghost mid = self.sink@;
        assert(mid == v.sink + pending_header(v));
        encode_variable_len(num_values, &mut self.sink);
        encode_variable_len(payload.len(), &mut self.sink);
        put_bytes(&mut self.sink, payload);
        put_bytes(&mut self.sink, self.marker.as_slice());
        proof {
            assert(self.sink@ =~= v.sink + emitted(v, num_values as nat, payload@));
            assert(self@ == after_block(v, num_values as nat, payload@));
        }
        self.sink.len() - start
    }

    /// Appends one value, given as what the schema encoder made of it.
    pub fn append(&mut self, value: Result<Vec<u8>, Error>) -> (r: Result<usize, Error>)
        requires
            old(self).wf(),
        ensures
            final(self).wf(),
            value matches Err(e) ==> r == Err::<usize, Error>(e) && final(self)@ == old(self)@,
            value matches Ok(b) ==> (r matches Ok(n) && final(self)@ == after_block(
                old(self)@,
                1,
                old(self)@.codec.compressed(b@),
            ) && n == emitted(old(self)@, 1, old(self)@.codec.compressed(b@)).len()),
    {
        let ghost b = value;
        let mut values: Vec<Result<Vec<u8>, Error>> = Vec::new();
        values.push(value);
        let ghost vs = values@;
        proof {
            assert(vs =~= seq![b]);
            assert(vs.drop_last() =~= Seq::<Result<Vec<u8>, Error>>::empty());
            assert(concat_encoded(Seq::<Result<Vec<u8>, Error>>::empty()) == Seq::<u8>::empty());
            if b is Ok {
                assert(concat_encoded(vs) =~= b->Ok_0@);
                assert(all_encoded(vs));
            } else {
                assert(first_failure(vs, 0));
            }
        }
        self.extend(values)
    }

    /// Writes one block holding `values`, each given as what the schema
    /// encoder made of it, in order. If one of them failed, the first failure
    /// is returned and nothing is written. Otherwise their bytes are
    /// concatenated, compressed, and written as one block, with the header
    /// first if none was written yet; an empty batch gives an empty block.
    pub fn extend(&mut self, values: Vec<Result<Vec<u8>, Error>>) -> (r: Result<usize, Error>)
        requires
            old(self).wf(),
        ensures
            final(self).wf(),
            forall|i: int|
                first_failure(values@, i) ==> r == Err::<usize, Error>(values@[i]->Err_0)
                    && final(self)@ == old(self)@,
            all_encoded(values@) ==> (r matches Ok(n) && final(self)@ == after_block(
                old(self)@,
                values@.len(),
                old(self)@.codec.compressed(concat_encoded(values@)),
            ) && n == emitted(
                old(self)@,
                values@.len(),
                old(self)@.codec.compressed(concat_encoded(values@)),
            ).len()),
    {
        let ghost vs = values@;
        let mut stream: Vec<u8> = Vec::new();
        let mut i: usize = 0;
        while i < values.len()
            invariant
                vs == values@,
                self@ == old(self)@,
                self.wf(),
                i <= vs.len(),
                all_encoded(vs.take(i as int)),
                stream@ == concat_encoded(vs.take(i as int)),
            decreases vs.len() - i,
        {
            if values[i].is_err() {
                let mut values = values;
                proof {
                    assert forall|j: int| 0 <= j < i implies vs[j] is Ok by {
                        assert(vs.take(i as int)[j] == vs[j]);
                    }
                    assert(first_failure(vs, i as int));
                    assert forall|k: int| first_failure(vs, k) implies k == i by {
                        if k < i {
                            assert(vs.take(i as int)[k] is Ok);
                        }
                    }
                }
                return Err(values.remove(i).unwrap_err());
            }
            match &values[i] {
                Ok(b) => put_bytes(&mut stream, b.as_slice()),
                Err(_) => {},
            }
            proof {
                assert(vs.take(i as int + 1).drop_last() =~= vs.take(i as int));
                assert(vs.take(i as int + 1).last() == vs[i as int]);
                assert(all_encoded(vs.take(i as int + 1))) by {
                    assert forall|k: int| 0 <= k < i + 1 implies #[trigger] vs.take(i as int + 1)[k] is Ok by {
                        if k < i {
                            assert(vs.take(i as int)[k] == vs.take(i as int + 1)[k]);
                        }
                    }
                }
            }
            i = i + 1;
        }
        proof {
            assert(vs.take(vs.len() as int) =~= vs);
        }
        let count = values.len();
        let payload = self.codec.compress(stream);
        Ok(self.write_block(count, payload.as_slice()))
    }

    /// Hands out the bytes written since the last call (or since the writer
    /// was made) and leaves the sink empty; the writer goes on as before.
    pub fn take_written(&mut self) -> (r: Vec<u8>)
        requires
            old(self).wf(),
        ensures
            final(self).wf(),
            r@ == old(self)@.sink,
            final(self)@ == (WriterView { sink: Seq::empty(), ..old(self)@ }),
    {
        let mut r: Vec<u8> = Vec::new();
        r.append(&mut self.sink);
        assert(r@ =~= old(self)@.sink);
        r
    }

    /// Gives back the sink with everything written to it.
    pub fn into_inner(self) -> (r: Vec<u8>)
        ensures
            r@ == self@.sink,
    {
        self.sink
    }
}

} // verus!
