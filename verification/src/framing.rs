//! Framing a connection's byte stream into lines. Each read's bytes are
//! appended to the partial line kept from earlier reads; every `\n` ends a
//! line, which must be UTF-8 and is trimmed of surrounding whitespace. An
//! empty read means the peer closed; a line that is not UTF-8, or grows
//! past the cap, ends the reader with an error, after which it reports
//! nothing more.
use vstd::prelude::*;
use vstd::slice::slice_index_get;
use vstd::utf8::{decode_utf8, valid_utf8};

use crate::text::{trim_spec, trim_str};

verus! {

/// The longest line the reader will buffer, in bytes.
pub const LINE_CAP: usize = 65536;

/// What one read's bytes produced, in order.
pub enum ReadOutcome {
    Line(String),
    Closed,
    BadUtf8,
    TooLong,
}

#[verifier::ext_equal]
pub enum ReadOutcomeView {
    Line(Seq<char>),
    Closed,
    BadUtf8,
    TooLong,
}

impl View for ReadOutcome {
    type V = ReadOutcomeView;

    open spec fn view(&self) -> ReadOutcomeView {
        match self {
            ReadOutcome::Line(s) => ReadOutcomeView::Line(s@),
            ReadOutcome::Closed => ReadOutcomeView::Closed,
            ReadOutcome::BadUtf8 => ReadOutcomeView::BadUtf8,
            ReadOutcome::TooLong => ReadOutcomeView::TooLong,
        }
    }
}

/// The views of a vector of outcomes.
pub open spec fn outcomes_view(v: Seq<ReadOutcome>) -> Seq<ReadOutcomeView> {
    v.map_values(|o: ReadOutcome| o@)
}

/// What feeding the bytes `data` to a reader holding the partial line
/// `buf` produces: the outcomes in order, the new partial line, and
/// whether the reader has ended. Ends at the first bad line; bytes
/// after it are discarded.
pub open spec fn spec_feed(buf: Seq<u8>, data: Seq<u8>) -> (Seq<ReadOutcomeView>, Seq<u8>, bool)
    decreases data.len(),
{
    if data.len() == 0 {
        (Seq::empty(), buf, false)
    } else if data[0] == 10 {
        if !valid_utf8(buf) {
            (seq![ReadOutcomeView::BadUtf8], Seq::<u8>::empty(), true)
        } else {
            let r = spec_feed(Seq::<u8>::empty(), data.drop_first());
            (seq![ReadOutcomeView::Line(trim_spec(decode_utf8(buf)))] + r.0, r.1, r.2)
        }
    } else if buf.len() >= LINE_CAP {
        (seq![ReadOutcomeView::TooLong], Seq::<u8>::empty(), true)
    } else {
        spec_feed(buf.push(data[0]), data.drop_first())
    }
}

/// What one read produces: an empty read closes the reader; an ended
/// reader reports nothing; otherwise the bytes are framed.
pub open spec fn spec_reader_feed(buf: Seq<u8>, finished: bool, data: Seq<u8>) -> (Seq<
    ReadOutcomeView,
>, Seq<u8>, bool) {
    if finished {
        (Seq::empty(), buf, true)
    } else if data.len() == 0 {
        (seq![ReadOutcomeView::Closed], buf, true)
    } else {
        spec_feed(buf, data)
    }
}

/// Relies on std's `str::from_utf8`: it returns `Ok` exactly on UTF-8
/// input, decoding it to the characters the bytes encode.
#[verifier::external_body]
fn decode_line(bytes: &Vec<u8>) -> (r: Option<String>)
    ensures
        r is Some <==> valid_utf8(bytes@),
        r matches Some(s) ==> s@ == decode_utf8(bytes@),
{
    match std::str::from_utf8(bytes.as_slice()) {
        Result::Ok(s) => Option::Some(s.to_string()),
        Result::Err(_) => Option::None,
    }
}

/// One connection's reader state: the partial line carried across
/// reads, and whether the reader has ended.
pub struct LineReader {
    buf: Vec<u8>,
    finished: bool,
}

impl LineReader {
    /// The partial line held from earlier reads.
    pub closed spec fn partial(&self) -> Seq<u8> {
        self.buf@
    }

    /// Whether the reader has ended and reports nothing more.
    pub closed spec fn is_finished(&self) -> bool {
        self.finished
    }

    pub fn new() -> (r: LineReader)
        ensures
            r.partial() == Seq::<u8>::empty(),
            !r.is_finished(),
    {
        LineReader { buf: Vec::new(), finished: false }
    }

    /// Feed one read's bytes through the framer. An empty slice is the
    /// peer's close.
    pub fn feed(&mut self, data: &[u8]) -> (out: Vec<ReadOutcome>)
        ensures
            (outcomes_view(out@), final(self).partial(), final(self).is_finished())
                == spec_reader_feed(old(self).partial(), old(self).is_finished(), data@),
    {
        let ghost buf0 = self.buf@;
        let mut out: Vec<ReadOutcome> = Vec::new();
        if self.finished {
            proof {
                assert(outcomes_view(out@) =~= Seq::<ReadOutcomeView>::empty());
            }
            return out;
        }
        let n = data.len();
        if n == 0 {
            self.finished = true;
            out.push(ReadOutcome::Closed);
            proof {
                assert(outcomes_view(out@) =~= seq![ReadOutcomeView::Closed]);
            }
            return out;
        }
        let ghost whole = spec_feed(buf0, data@);
        proof {
            assert(data@.skip(0) =~= data@);
            assert(outcomes_view(out@) =~= Seq::<ReadOutcomeView>::empty());
            assert(outcomes_view(out@) + whole.0 =~= whole.0);
        }
        let mut j: usize = 0;
        while j < n
            invariant
                n == data@.len(),
                n > 0,
                0 <= j <= n,
                !self.finished,
                buf0 == old(self).partial(),
                !old(self).is_finished(),
                whole == spec_feed(buf0, data@),
                whole == spec_reader_feed(old(self).partial(), old(self).is_finished(), data@),
                ({
                    let rest = spec_feed(self.buf@, data@.skip(j as int));
                    whole == (outcomes_view(out@) + rest.0, rest.1, rest.2)
                }),
            decreases n - j,
        {
            proof {
                assert(data@.skip(j as int)[0] == data@[j as int]);
                assert(data@.skip(j as int).drop_first() =~= data@.skip(j + 1));
            }
            let byte = *slice_index_get(data, j);
            if byte == 10 {
                let mut complete: Vec<u8> = Vec::new();
                core::mem::swap(&mut complete, &mut self.buf);
                match decode_line(&complete) {
                    Option::Some(decoded) => {
                        let line = trim_str(decoded.as_str());
                        out.push(ReadOutcome::Line(line));
                        proof {
                            let rest2 = spec_feed(Seq::<u8>::empty(), data@.skip(j + 1));
                            let here = ReadOutcomeView::Line(trim_spec(decode_utf8(complete@)));
                            assert(outcomes_view(out@) =~= outcomes_view(out@.drop_last()).push(
                                here,
                            ));
                            assert(outcomes_view(out@) + rest2.0 =~= outcomes_view(
                                out@.drop_last(),
                            ) + (seq![here] + rest2.0));
                            assert(self.buf@ =~= Seq::<u8>::empty());
                        }
                    },
                    Option::None => {
                        self.finished = true;
                        out.push(ReadOutcome::BadUtf8);
                        proof {
                            assert(spec_feed(complete@, data@.skip(j as int)) == (
                                seq![ReadOutcomeView::BadUtf8],
                                Seq::<u8>::empty(),
                                true,
                            ));
                            assert(outcomes_view(out@) =~= outcomes_view(out@.drop_last()).push(
                                ReadOutcomeView::BadUtf8,
                            ));
                            assert(outcomes_view(out@.drop_last()) + seq![
                                ReadOutcomeView::BadUtf8,
                            ] =~= outcomes_view(out@));
                            assert(self.buf@ =~= Seq::<u8>::empty());
                        }
                        return out;
                    },
                }
            } else {
                if self.buf.len() >= LINE_CAP {
                    let ghost bufj = self.buf@;
                    self.finished = true;
                    self.buf.clear();
                    out.push(ReadOutcome::TooLong);
                    proof {
                        assert(spec_feed(bufj, data@.skip(j as int)) == (
                            seq![ReadOutcomeView::TooLong],
                            Seq::<u8>::empty(),
                            true,
                        ));
                        assert(outcomes_view(out@) =~= outcomes_view(out@.drop_last()).push(
                            ReadOutcomeView::TooLong,
                        ));
                        assert(outcomes_view(out@.drop_last()) + seq![ReadOutcomeView::TooLong]
                            =~= outcomes_view(out@));
                        assert(self.buf@ =~= Seq::<u8>::empty());
                    }
                    return out;
                }
                self.buf.push(byte);
            }
            j = j + 1;
        }
        proof {
            assert(data@.skip(n as int).len() == 0);
            let rest = spec_feed(self.buf@, data@.skip(n as int));
            assert(outcomes_view(out@) + rest.0 =~= outcomes_view(out@));
        }
        out
    }
}

} // verus!
