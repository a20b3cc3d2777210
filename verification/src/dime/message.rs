use crate::dime::error::{DimeError, DimeErrorView};
use crate::dime::format::TypeFormat;
use crate::dime::io::{opt_chars, ByteReader};
use crate::dime::options::DimeOptions;
use crate::dime::record::{
    lemma_read_record_bounds, lemma_record_roundtrip, normalize_record, opt_string_len,
    record_fits, spec_read_record, spec_write_record, DimeRecord, DimeRecordView,
};
use vstd::prelude::*;
use vstd::string::StringExecFns;
use vstd::utf8::encode_utf8;

verus! {

/// Largest number of data bytes that one record of an outgoing message holds.
pub const CHUNK_SIZE: usize = 4096;

/// A DIME message: the options and content type of its first record and
/// the data of all its records, in order.
#[derive(Debug)]
pub struct DimeMessage {
    pub options: Option<DimeOptions>,
    pub content_type: String,
    pub data: Vec<u8>,
}

/// The content of a [`DimeMessage`].
pub ghost struct DimeMessageView {
    pub options: Option<DimeOptions>,
    pub content_type: Seq<char>,
    pub data: Seq<u8>,
}

impl View for DimeMessage {
    type V = DimeMessageView;

    open spec fn view(&self) -> DimeMessageView {
        DimeMessageView {
            options: self.options,
            content_type: self.content_type@,
            data: self.data@,
        }
    }
}

/// The ME and CF flags of a record disagree, as they must.
pub open spec fn spec_check_flags(r: DimeRecordView) -> Result<(), DimeErrorView> {
    if r.is_last_record == r.has_next_chunk {
        Err(DimeErrorView::InconsistentRecordFlags("Inconsistent record flags: ME=CF"@))
    } else {
        Ok(())
    }
}

/// The checks on a record of an incoming message: the first record opens
/// the message with a media type, later ones continue it unchanged.
pub open spec fn spec_validate_record(r: DimeRecordView, first: bool) -> Result<(), DimeErrorView> {
    if first {
        if !r.is_first_record {
            Err(DimeErrorView::OutOfOrder("first record expected"@))
        } else if r.type_format != TypeFormat::MediaType {
            Err(DimeErrorView::UnexpectedTypeFormat(r.type_format))
        } else if r.type_value is None {
            Err(DimeErrorView::RecordFormatError("Expected content type"@))
        } else {
            spec_check_flags(r)
        }
    } else {
        if r.is_first_record {
            Err(DimeErrorView::OutOfOrder("first record not expected"@))
        } else if r.type_format != TypeFormat::Unchanged {
            Err(DimeErrorView::UnexpectedTypeFormat(r.type_format))
        } else if r.type_value is Some {
            Err(DimeErrorView::UnexpectedContentType(r.type_value->0))
        } else if r.id is Some {
            Err(DimeErrorView::RecordFormatError("Unexpected ID: "@ + r.id->0))
        } else {
            spec_check_flags(r)
        }
    }
}

/// Reading the records of a message from `s` up to and including the one
/// flagged last, checking each: the records and the bytes that they take.
pub open spec fn spec_read_records(s: Seq<u8>, first: bool) -> Result<
    (Seq<DimeRecordView>, int),
    DimeErrorView,
>
    decreases s.len(),
{
    match spec_read_record(s) {
        Err(e) => Err(e),
        Ok((r, n)) => match spec_validate_record(r, first) {
            Err(e) => Err(e),
            Ok(_) => if r.is_last_record {
                Ok((seq![r], n))
            } else if 0 < n <= s.len() {
                match spec_read_records(s.skip(n), false) {
                    Err(e) => Err(e),
                    Ok((rs, m)) => Ok((seq![r] + rs, n + m)),
                }
            } else {
                Err(DimeErrorView::UnexpectedEof)
            },
        },
    }
}

/// The options of the first record that has any.
pub open spec fn first_options(rs: Seq<DimeRecordView>) -> Option<DimeOptions>
    decreases rs.len(),
{
    if rs.len() == 0 {
        None
    } else {
        match first_options(rs.drop_last()) {
            Some(o) => Some(o),
            None => rs.last().options,
        }
    }
}

/// The TYPE value of the first record that has one.
pub open spec fn first_type_value(rs: Seq<DimeRecordView>) -> Option<Seq<char>>
    decreases rs.len(),
{
    if rs.len() == 0 {
        None
    } else {
        match first_type_value(rs.drop_last()) {
            Some(t) => Some(t),
            None => rs.last().type_value,
        }
    }
}

/// The data of all records, in order.
pub open spec fn concat_data(rs: Seq<DimeRecordView>) -> Seq<u8>
    decreases rs.len(),
{
    if rs.len() == 0 {
        Seq::empty()
    } else {
        concat_data(rs.drop_last()) + rs.last().data
    }
}

/// Reading a whole message from the start of `s`: the message and the
/// bytes that it takes.
pub open spec fn spec_read_message(s: Seq<u8>) -> Result<(DimeMessageView, int), DimeErrorView> {
    match spec_read_records(s, true) {
        Err(e) => Err(e),
        Ok((rs, n)) => match first_type_value(rs) {
            None => Err(DimeErrorView::RecordFormatError("Content type not found"@)),
            Some(t) => Ok(
                (
                    DimeMessageView {
                        options: first_options(rs),
                        content_type: t,
                        data: concat_data(rs),
                    },
                    n,
                ),
            ),
        },
    }
}

/// The records read so far followed by the outcome of reading the rest.
pub open spec fn prepend_records(
    done: Seq<DimeRecordView>,
    consumed: int,
    res: Result<(Seq<DimeRecordView>, int), DimeErrorView>,
) -> Result<(Seq<DimeRecordView>, int), DimeErrorView> {
    match res {
        Err(e) => Err(e),
        Ok((rs, m)) => Ok((done + rs, consumed + m)),
    }
}

/// Checks a record of an incoming message; `first` says whether it is the
/// message's first record.
pub fn validate_record(record: &DimeRecord, first: bool) -> (r: Result<(), DimeError>)
    ensures
        match spec_validate_record(record@, first) {
            Ok(_) => r is Ok,
            Err(e) => r matches Err(e2) && e2@ == e,
        },
{
    if first {
        if !record.is_first_record {
            return Err(DimeError::OutOfOrder("first record expected"));
        }
        if record.type_format != TypeFormat::MediaType {
            return Err(DimeError::UnexpectedTypeFormat(record.type_format));
        }
        if record.type_value.is_none() {
            return Err(DimeError::RecordFormatError(String::from_str("Expected content type")));
        }
    } else {
        if record.is_first_record {
            return Err(DimeError::OutOfOrder("first record not expected"));
        }
        if record.type_format != TypeFormat::Unchanged {
            return Err(DimeError::UnexpectedTypeFormat(record.type_format));
        }
        if let Some(record_type_value) = &record.type_value {
            return Err(DimeError::UnexpectedContentType(record_type_value.clone()));
        }
        if let Some(record_id) = &record.id {
            let mut message = String::from_str("Unexpected ID: ");
            message.append(record_id.as_str());
            return Err(DimeError::RecordFormatError(message));
        }
    }
    if record.is_last_record == record.has_next_chunk {
        return Err(DimeError::InconsistentRecordFlags("Inconsistent record flags: ME=CF"));
    }
    Ok(())
}

impl DimeMessage {
    /// Reads one message: records up to the one flagged last, checked in
    /// turn, their data joined.
    pub fn read_from(reader: &mut ByteReader) -> (r: Result<DimeMessage, DimeError>)
        requires
            old(reader).wf(),
        ensures
            final(reader).wf(),
            final(reader).input() == old(reader).input(),
            match spec_read_message(old(reader).rest()) {
                Ok((m, n)) => r matches Ok(msg) && msg@ == m && final(reader).offset()
                    == old(reader).offset() + n,
                Err(e) => r matches Err(e2) && e2@ == e,
            },
    {
        let mut data: Vec<u8> = Vec::new();
        let mut options: Option<DimeOptions> = None;
        let mut content_type: Option<String> = None;
        let mut first = true;
        let ghost mut done: Seq<DimeRecordView> = seq![];
        loop
            invariant_except_break
                reader.wf(),
                reader.input() == old(reader).input(),
                old(reader).offset() <= reader.offset(),
                first <==> done.len() == 0,
                options == first_options(done),
                opt_chars(content_type) == first_type_value(done),
                data@ == concat_data(done),
                spec_read_records(old(reader).rest(), true) == prepend_records(
                    done,
                    reader.offset() - old(reader).offset(),
                    spec_read_records(reader.rest(), first),
                ),
            ensures
                reader.wf(),
                reader.input() == old(reader).input(),
                spec_read_records(old(reader).rest(), true) == Ok::<
                    (Seq<DimeRecordView>, int),
                    DimeErrorView,
                >((done, reader.offset() - old(reader).offset())),
                options == first_options(done),
                opt_chars(content_type) == first_type_value(done),
                data@ == concat_data(done),
            decreases reader.rest().len(),
        {
            let ghost before = *reader;
            let ghost done_before = done;
            proof {
                lemma_read_record_bounds(before.rest());
            }
            let mut record = DimeRecord::read_from(reader)?;
            validate_record(&record, first)?;
            let ghost rv = record@;
            let ghost n = reader.offset() - before.offset();
            proof {
                ByteReader::lemma_rest_advance(&before, reader, n);
                done = done.push(rv);
                assert(done.drop_last() =~= done_before);
            }
            first = false;
            if options.is_none() {
                options = record.options;
            }
            if content_type.is_none() {
                content_type = record.type_value;
            }
            data.append(&mut record.data);
            if record.is_last_record {
                proof {
                    assert(done_before + seq![rv] =~= done);
                }
                break;
            }
            proof {
                if let Ok((rs, m)) = spec_read_records(reader.rest(), false) {
                    assert(done_before + (seq![rv] + rs) =~= done + rs);
                }
            }
        }
        let content_type = match content_type {
            Some(t) => t,
            None => {
                return Err(
                    DimeError::RecordFormatError(String::from_str("Content type not found")),
                );
            },
        };
        Ok(DimeMessage { options, content_type, data })
    }
}

/// Number of records that an outgoing message of `len` data bytes takes:
/// one per started chunk, and one for no data at all.
pub open spec fn chunk_count(len: int) -> int {
    if len == 0 {
        1
    } else {
        (len - 1) / 4096 + 1
    }
}

/// End of the data of chunk `i`.
pub open spec fn chunk_end(i: int, len: int) -> int {
    if (i + 1) * 4096 < len {
        (i + 1) * 4096
    } else {
        len
    }
}

/// Record `i` of an outgoing message: the first opens the message with its
/// media type and options, each carries the next chunk of data, the last is
/// flagged as such and the others as chunked.
pub open spec fn message_record(m: DimeMessageView, i: int) -> DimeRecordView {
    let c = chunk_count(m.data.len() as int);
    DimeRecordView {
        is_first_record: i == 0,
        is_last_record: i == c - 1,
        has_next_chunk: i < c - 1,
        type_format: if i != 0 {
            TypeFormat::Unchanged
        } else {
            TypeFormat::MediaType
        },
        id: None,
        options: if i == 0 {
            m.options
        } else {
            None
        },
        type_value: if i == 0 {
            Some(m.content_type)
        } else {
            None
        },
        data: m.data.subrange(i * 4096, chunk_end(i, m.data.len() as int)),
    }
}

/// The records of an outgoing message.
pub open spec fn message_records(m: DimeMessageView) -> Seq<DimeRecordView> {
    Seq::new(chunk_count(m.data.len() as int) as nat, |i: int| message_record(m, i))
}

/// The bytes of a sequence of records, one after the other.
pub open spec fn spec_write_records(rs: Seq<DimeRecordView>) -> Seq<u8>
    decreases rs.len(),
{
    if rs.len() == 0 {
        Seq::empty()
    } else {
        spec_write_record(rs[0]) + spec_write_records(rs.drop_first())
    }
}

/// The bytes of an outgoing message.
pub open spec fn spec_write_message(m: DimeMessageView) -> Seq<u8> {
    spec_write_records(message_records(m))
}

/// A message that can be written: its content type is not empty and its
/// encoding fits the TYPE length field.
pub open spec fn message_writable(m: DimeMessageView) -> bool {
    &&& m.content_type.len() > 0
    &&& encode_utf8(m.content_type).len() <= u16::MAX
}

/// Only the first record of an outgoing message carries the options: every
/// later record has no options field. So options add exactly the four bytes
/// of one options field to a written message, however many records its data
/// takes.
pub proof fn lemma_options_only_in_first_record(m: DimeMessageView, o: DimeOptions)
    ensures
        forall|i: int|
            0 < i < message_records(m).len() ==> (#[trigger] message_records(m)[i]).options is None,
        message_records(m).len() > 0 ==> message_records(m)[0].options == m.options,
        spec_write_message(DimeMessageView { options: Some(o), ..m }).len() == spec_write_message(
            DimeMessageView { options: None, ..m },
        ).len() + 4,
{
    let ms = DimeMessageView { options: Some(o), ..m };
    let mn = DimeMessageView { options: None, ..m };
    let rs = message_records(ms);
    let rn = message_records(mn);
    lemma_chunk_bounds(m.data.len() as int, 0);
    assert(rs.drop_first() =~= rn.drop_first());
    assert(spec_write_records(rs) == spec_write_record(rs[0]) + spec_write_records(
        rs.drop_first(),
    ));
    assert(spec_write_records(rn) == spec_write_record(rn[0]) + spec_write_records(
        rn.drop_first(),
    ));
    assert(spec_write_record(rs[0]).len() == spec_write_record(rn[0]).len() + 4);
}

/// Where the chunks of a message of `len` bytes start and end.
pub proof fn lemma_chunk_bounds(len: int, i: int)
    requires
        0 <= len,
        0 <= i < chunk_count(len),
    ensures
        chunk_count(len) >= 1,
        i * 4096 <= chunk_end(i, len) <= len,
        chunk_end(i, len) - i * 4096 <= 4096,
        i < chunk_count(len) - 1 ==> chunk_end(i, len) == (i + 1) * 4096,
        i == chunk_count(len) - 1 ==> chunk_end(i, len) == len,
        len > 0 ==> i * 4096 < len,
{
    if len > 0 {
        let q = (len - 1) / 4096;
        assert(q * 4096 <= len - 1 < (q + 1) * 4096) by (nonlinear_arith)
            requires
                q == (len - 1) / 4096,
                len >= 1,
        ;
        assert(i * 4096 <= q * 4096) by (nonlinear_arith)
            requires
                i <= q,
        ;
        if i < q {
            assert((i + 1) * 4096 <= q * 4096) by (nonlinear_arith)
                requires
                    i + 1 <= q,
            ;
        }
    }
}

/// Writing one more record appends its bytes.
pub proof fn lemma_write_records_push(rs: Seq<DimeRecordView>, r: DimeRecordView)
    ensures
        spec_write_records(rs.push(r)) == spec_write_records(rs) + spec_write_record(r),
    decreases rs.len(),
{
    if rs.len() == 0 {
        let e = Seq::<DimeRecordView>::empty();
        assert(rs.push(r).drop_first() =~= e);
        assert(spec_write_records(e) == Seq::<u8>::empty());
        assert(rs.push(r)[0] == r);
        assert(spec_write_records(rs) == Seq::<u8>::empty());
        assert(spec_write_records(rs.push(r)) =~= spec_write_record(r));
    } else {
        lemma_write_records_push(rs.drop_first(), r);
        assert(rs.push(r).drop_first() =~= rs.drop_first().push(r));
        assert(spec_write_records(rs.push(r)) =~= spec_write_records(rs) + spec_write_record(r));
    }
}

/// The records of a writable message pass the checks of an incoming message
/// and come back unchanged from their encoding.
pub proof fn lemma_message_record_facts(m: DimeMessageView, i: int)
    requires
        message_writable(m),
        0 <= i < chunk_count(m.data.len() as int),
    ensures
        record_fits(message_record(m, i)),
        normalize_record(message_record(m, i)) == message_record(m, i),
        spec_validate_record(message_record(m, i), i == 0) is Ok,
{
    lemma_chunk_bounds(m.data.len() as int, i);
    let r = message_record(m, i);
    assert(r == normalize_record(r));
}

/// Reading back the records of a writable message, from record `i` on.
#[verifier::rlimit(100)]
pub proof fn lemma_read_records_suffix(m: DimeMessageView, i: int, rest: Seq<u8>)
    requires
        message_writable(m),
        0 <= i < chunk_count(m.data.len() as int),
    ensures
        spec_read_records(spec_write_records(message_records(m).skip(i)) + rest, i == 0) == Ok::<
            (Seq<DimeRecordView>, int),
            DimeErrorView,
        >(
            (
                message_records(m).skip(i),
                spec_write_records(message_records(m).skip(i)).len() as int,
            ),
        ),
    decreases chunk_count(m.data.len() as int) - i,
{
    let rs = message_records(m);
    let c = chunk_count(m.data.len() as int);
    let r = message_record(m, i);
    let tail = spec_write_records(rs.skip(i + 1));
    assert(rs.skip(i)[0] == r);
    assert(rs.skip(i).drop_first() =~= rs.skip(i + 1));
    let w = spec_write_records(rs.skip(i));
    assert(w == spec_write_record(r) + tail);
    let s = w + rest;
    assert(s =~= spec_write_record(r) + (tail + rest));
    lemma_message_record_facts(m, i);
    lemma_record_roundtrip(r, tail + rest);
    let n = spec_write_record(r).len() as int;
    lemma_read_record_bounds(s);
    if i == c - 1 {
        assert(rs.skip(i) =~= seq![r]);
        assert(rs.skip(i + 1) =~= Seq::<DimeRecordView>::empty());
    } else {
        assert(s.skip(n) =~= tail + rest);
        lemma_read_records_suffix(m, i + 1, rest);
        assert(seq![r] + rs.skip(i + 1) =~= rs.skip(i));
    }
}

/// The message built from the records of a writable message is the message.
pub proof fn lemma_message_of_records(m: DimeMessageView, k: int)
    requires
        message_writable(m),
        1 <= k <= chunk_count(m.data.len() as int),
    ensures
        first_options(message_records(m).take(k)) == m.options,
        first_type_value(message_records(m).take(k)) == Some(m.content_type),
        concat_data(message_records(m).take(k)) == m.data.subrange(
            0,
            chunk_end(k - 1, m.data.len() as int),
        ),
    decreases k,
{
    let rs = message_records(m);
    let len = m.data.len() as int;
    lemma_chunk_bounds(len, k - 1);
    let t = rs.take(k);
    if k == 1 {
        let e = Seq::<DimeRecordView>::empty();
        assert(t.drop_last() =~= e);
        assert(first_options(e) == None::<DimeOptions>);
        assert(first_type_value(e) == None::<Seq<char>>);
        assert(concat_data(e) == Seq::<u8>::empty());
        assert(t.last() == message_record(m, 0));
        assert(concat_data(t) =~= m.data.subrange(0, chunk_end(0, len)));
    } else {
        lemma_message_of_records(m, k - 1);
        lemma_chunk_bounds(len, k - 2);
        assert(t.drop_last() =~= rs.take(k - 1));
        assert(t.last() == message_record(m, k - 1));
        assert(m.data.subrange(0, chunk_end(k - 2, len)) + m.data.subrange(
            (k - 1) * 4096,
            chunk_end(k - 1, len),
        ) =~= m.data.subrange(0, chunk_end(k - 1, len)));
    }
}

/// Writing a message whose content type is not empty and fits, then
/// reading it back, gives the message and consumes what was written.
pub proof fn lemma_message_roundtrip(m: DimeMessageView, rest: Seq<u8>)
    requires
        message_writable(m),
    ensures
        spec_read_message(spec_write_message(m) + rest) == Ok::<(DimeMessageView, int), DimeErrorView>(
            (m, spec_write_message(m).len() as int),
        ),
{
    let rs = message_records(m);
    let c = chunk_count(m.data.len() as int);
    lemma_chunk_bounds(m.data.len() as int, 0);
    assert(rs.skip(0) =~= rs);
    lemma_read_records_suffix(m, 0, rest);
    lemma_message_of_records(m, c);
    assert(rs.take(c) =~= rs);
    lemma_chunk_bounds(m.data.len() as int, c - 1);
    assert(m.data.subrange(0, m.data.len() as int) =~= m.data);
}

/// The content type names a compressed payload: its bytes end with
/// `+xpress`.
pub open spec fn is_xpress_content_type(content_type: Seq<char>) -> bool {
    let b = encode_utf8(content_type);
    let x = seq![43u8, 120u8, 112u8, 114u8, 101u8, 115u8, 115u8];
    b.len() >= 7 && b.subrange(b.len() - 7, b.len() as int) == x
}

/// Whether a content type ends with `+xpress`.
pub fn content_type_is_xpress(content_type: &str) -> (r: bool)
    ensures
        r == is_xpress_content_type(content_type@),
{
    let b = content_type.as_bytes();
    let n = b.len();
    if n < 7 {
        return false;
    }
    let r = b[n - 7] == 43 && b[n - 6] == 120 && b[n - 5] == 112 && b[n - 4] == 114 && b[n - 3]
        == 101 && b[n - 2] == 115 && b[n - 1] == 115;
    proof {
        let x = seq![43u8, 120u8, 112u8, 114u8, 101u8, 115u8, 115u8];
        let t = b@.subrange(n - 7, n as int);
        if r {
            assert(t =~= x);
        } else {
            assert(t[0] != x[0] || t[1] != x[1] || t[2] != x[2] || t[3] != x[3] || t[4] != x[4]
                || t[5] != x[5] || t[6] != x[6]);
        }
    }
    r
}

impl DimeMessage {
    /// Whether the payload is compressed, as its content type says.
    pub fn is_compressed(&self) -> (r: bool)
        ensures
            r == is_xpress_content_type(self.content_type@),
    {
        content_type_is_xpress(self.content_type.as_str())
    }

    /// Record `index` of the encoding of this message.
    fn record_at(&self, index: usize, count: usize) -> (r: DimeRecord)
        requires
            count == chunk_count(self.data@.len() as int),
            index < count,
        ensures
            r@ == message_record(self@, index as int),
    {
        proof {
            lemma_chunk_bounds(self.data@.len() as int, index as int);
        }
        let len = self.data.len();
        assert(index * 4096 <= len);
        let start = index * 4096;
        let end = if self.data.len() - start > CHUNK_SIZE {
            start + CHUNK_SIZE
        } else {
            self.data.len()
        };
        let chunk = vstd::slice::slice_to_vec(&self.data.as_slice()[start..end]);
        DimeRecord {
            is_first_record: index == 0,
            is_last_record: index == count - 1,
            has_next_chunk: index < count - 1,
            type_format: if index != 0 {
                TypeFormat::Unchanged
            } else {
                TypeFormat::MediaType
            },
            id: None,
            options: if index == 0 {
                self.options
            } else {
                None
            },
            type_value: if index == 0 {
                Some(self.content_type.clone())
            } else {
                None
            },
            data: chunk,
        }
    }

    /// Appends the encoding of the message: one record per chunk of at most
    /// 4096 data bytes, the first carrying the options and content type.
    /// Refused, with nothing written, when the content type is empty or too
    /// long for the TYPE length field.
    pub fn write_to(&self, out: &mut Vec<u8>) -> (r: Result<(), DimeError>)
        ensures
            message_writable(self@) ==> r is Ok && final(out)@ == old(out)@ + spec_write_message(
                self@,
            ),
            self@.content_type.len() == 0 ==> (r matches Err(e) && e@
                == DimeErrorView::RecordFormatError("Empty content type"@)),
            self@.content_type.len() > 0 && encode_utf8(self@.content_type).len() > u16::MAX ==> (
            r matches Err(e) && e@ == DimeErrorView::FieldTooLarge("TYPE"@)),
            r is Err ==> final(out)@ == old(out)@,
    {
        if self.content_type.as_str().is_empty() {
            return Err(DimeError::RecordFormatError(String::from_str("Empty content type")));
        }
        if self.content_type.as_str().as_bytes().len() > 65535 {
            return Err(DimeError::FieldTooLarge("TYPE"));
        }
        let count: usize = if self.data.len() == 0 {
            1
        } else {
            (self.data.len() - 1) / CHUNK_SIZE + 1
        };
        let ghost rs = message_records(self@);
        let mut index: usize = 0;
        while index < count
            invariant
                count == chunk_count(self.data@.len() as int),
                index <= count,
                message_writable(self@),
                rs == message_records(self@),
                out@ == old(out)@ + spec_write_records(rs.take(index as int)),
            decreases count - index,
        {
            let record = self.record_at(index, count);
            proof {
                lemma_message_record_facts(self@, index as int);
                lemma_write_records_push(rs.take(index as int), rs[index as int]);
                assert(rs.take(index as int).push(rs[index as int]) =~= rs.take(index + 1));
            }
            let ghost before = out@;
            match record.write_to(out) {
                Ok(()) => {},
                Err(e) => {
                    return Err(e);
                },
            }
            index = index + 1;
        }
        assert(rs.take(count as int) =~= rs);
        Ok(())
    }
}

} // verus!
