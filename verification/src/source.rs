//! The Line Reader: pulls one line from a buffered byte stream with a
//! bounded read, cleans it with the Text Sanitizer, and — after an overlong
//! line — discards the rest of that line so the next read starts at the
//! following line boundary.

use crate::errors::InputError;
use crate::sanitize::{sanitize_spec, sanitize_text};
use crate::scan::{lemma_scan_from, lemma_scan_from_lower, scan_from};
use vstd::prelude::*;
use vstd::utf8::{decode_utf8, valid_utf8};

verus! {

/// The predicate the stream scans look for: a line-feed byte.
pub open spec fn nl_pred() -> spec_fn(u8) -> bool {
    |b: u8| b == 10
}

/// A line-oriented byte source: a fully buffered stream that hands its
/// bytes out in order.  The view of a source is the sequence of bytes not
/// yet consumed.
pub struct LineSource {
    data: Vec<u8>,
    pos: usize,
}

impl View for LineSource {
    type V = Seq<u8>;

    closed spec fn view(&self) -> Seq<u8> {
        self.data@.skip(self.pos as int)
    }
}

impl LineSource {
    /// The consumed prefix never outruns the backing buffer.
    pub closed spec fn wf(&self) -> bool {
        self.pos <= self.data@.len()
    }

    /// Wraps a buffered stream so that lines can be drawn from it.
    pub fn new(data: Vec<u8>) -> (s: Self)
        ensures
            s.wf(),
            s@ == data@,
    {
        let s = LineSource { data, pos: 0 };
        proof {
            assert(s.data@.skip(0) =~= s.data@);
        }
        s
    }
}

/// The read allowance for one bounded line read: one byte beyond the
/// character limit, so that "exactly at the limit" can be told apart from
/// "more data follows" without reading unboundedly.
pub open spec fn read_cap(max_len: usize) -> int {
    if max_len == usize::MAX {
        max_len as int
    } else {
        max_len + 1
    }
}

/// How many bytes one bounded read takes from the unread stream `rem`: up
/// to and including the first line feed, but never more than the read
/// allowance and never past the end of the stream.
pub open spec fn line_take(rem: Seq<u8>, max_len: usize) -> int {
    let cap = if read_cap(max_len) < rem.len() {
        read_cap(max_len)
    } else {
        rem.len() as int
    };
    let nl = scan_from(rem, nl_pred(), 0);
    if nl < cap {
        nl + 1
    } else {
        cap
    }
}

/// Whether the bounded read used its whole allowance without meeting a line
/// feed: the line's true end has not yet been consumed.
pub open spec fn line_truncated(rem: Seq<u8>, max_len: usize) -> bool {
    let k = line_take(rem, max_len);
    k == read_cap(max_len) && (k == 0 || rem[k - 1] != 10)
}

/// The total number of bytes one read consumes from `rem`: the bounded
/// read, plus — when that read was truncated and its bytes decoded — the
/// discarded remainder of the overlong line, up to and including its line
/// feed or to the end of the stream.
pub open spec fn line_consumed(rem: Seq<u8>, max_len: usize) -> int {
    let k = line_take(rem, max_len);
    if line_truncated(rem, max_len) && valid_utf8(rem.take(k)) {
        let nl = scan_from(rem, nl_pred(), k);
        if nl < rem.len() {
            nl + 1
        } else {
            rem.len() as int
        }
    } else {
        k
    }
}

/// Relies on `String::from_utf8`: it succeeds exactly on valid UTF-8 input
/// and returns the decoded characters.  A decode failure is converted into
/// an I/O error of kind `InvalidData`, the way a buffered line read reports
/// bytes that are not text.
#[verifier::external_body]
fn bytes_to_string(v: Vec<u8>) -> (r: Result<String, std::io::Error>)
    ensures
        r is Ok <==> valid_utf8(v@),
        r matches Ok(s) ==> s@ == decode_utf8(v@),
{
    match String::from_utf8(v) {
        Ok(s) => Ok(s),
        Err(e) => Err(std::io::Error::new(std::io::ErrorKind::InvalidData, e)),
    }
}

/// Reads a single line from the source and sanitizes it.
///
/// At most `read_cap(max_len)` bytes are buffered; when the allowance is
/// used up before a line feed arrives, the rest of the overlong line is
/// read and discarded so the next call starts at the following line.  The
/// buffered bytes are decoded as UTF-8 (a failure is reported as
/// [`InputError::Io`] and aborts recovery early) and cleaned by the Text
/// Sanitizer with the same `max_len`.  End-of-stream with no data at all is
/// reported as [`InputError::Empty`], not as an I/O failure.
pub fn read_sanitized_line(src: &mut LineSource, max_len: usize) -> (r: Result<String, InputError>)
    requires
        old(src).wf(),
    ensures
        final(src).wf(),
        final(src)@ == old(src)@.skip(line_consumed(old(src)@, max_len)),
        ({
            let rem = old(src)@;
            let taken = rem.take(line_take(rem, max_len));
            if rem.len() == 0 {
                r matches Err(InputError::Empty)
            } else if !valid_utf8(taken) {
                r matches Err(InputError::Io(_))
            } else {
                match r {
                    Ok(out) => sanitize_spec(decode_utf8(taken), max_len) == Ok::<
                        Seq<char>,
                        InputError,
                    >(out@),
                    Err(e) => sanitize_spec(decode_utf8(taken), max_len) == Err::<
                        Seq<char>,
                        InputError,
                    >(e),
                }
            }
        }),
{
    let ghost rem = src@;
    let cap: usize = if max_len == usize::MAX {
        max_len
    } else {
        max_len + 1
    };
    let mut buf: Vec<u8> = Vec::new();
    proof {
        assert(rem.take(0) =~= buf@);
        assert(rem.skip(0) =~= rem);
    }
    loop
        invariant_except_break
            forall|j: int| 0 <= j < buf@.len() ==> rem[j] != 10,
        invariant
            src.wf(),
            cap == read_cap(max_len),
            buf@.len() <= cap,
            buf@.len() <= rem.len(),
            buf@ == rem.take(buf@.len() as int),
            src@ == rem.skip(buf@.len() as int),
        ensures
            src.wf(),
            buf@.len() <= rem.len(),
            buf@ == rem.take(buf@.len() as int),
            src@ == rem.skip(buf@.len() as int),
            buf@.len() == line_take(rem, max_len),
        decreases cap - buf@.len(),
    {
        if buf.len() == cap {
            proof {
                lemma_scan_from_lower(rem, nl_pred(), 0, buf@.len() as int);
            }
            break ;
        }
        if src.pos == src.data.len() {
            proof {
                assert(src@.len() == 0);
                assert(buf@.len() == rem.len());
                lemma_scan_from(rem, nl_pred(), 0, rem.len() as int);
            }
            break ;
        }
        let b = src.data[src.pos];
        proof {
            assert(src@.len() == src.data@.len() - src.pos);
            assert(buf@.len() < rem.len());
            assert(src@[0] == src.data@[src.pos as int]);
            assert(src@[0] == rem[buf@.len() as int]);
            assert(rem.take(buf@.len() as int + 1) =~= rem.take(buf@.len() as int).push(
                rem[buf@.len() as int],
            ));
            assert(src.data@.skip(src.pos + 1) =~= src@.skip(1));
            assert(rem.skip(buf@.len() as int + 1) =~= rem.skip(buf@.len() as int).skip(1));
        }
        src.pos = src.pos + 1;
        buf.push(b);
        if b == 10 {
            proof {
                lemma_scan_from(rem, nl_pred(), 0, buf@.len() - 1);
            }
            break ;
        }
    }
    let ghost k = line_take(rem, max_len);
    if buf.len() == 0 {
        proof {
            lemma_scan_from_lower(rem, nl_pred(), 0, 0);
            assert(rem.take(0) =~= Seq::<u8>::empty());
        }
        return Err(InputError::Empty);
    }
    let truncated = buf.len() == cap && buf[buf.len() - 1] != 10;
    let line = match bytes_to_string(buf) {
        Ok(s) => s,
        Err(e) => {
            // The stream stays where the failed read left it; recovery is
            // abandoned, so the position after an I/O failure is the
            // documented unspecified one.
            return Err(InputError::Io(e));
        },
    };
    if truncated {
        let ghost mut consumed: int = k;
        loop
            invariant_except_break
                forall|j: int| k <= j < consumed ==> rem[j] != 10,
            invariant
                src.wf(),
                line_truncated(rem, max_len),
                valid_utf8(rem.take(k)),
                k == line_take(rem, max_len),
                k <= consumed <= rem.len(),
                src@ == rem.skip(consumed),
            ensures
                src.wf(),
                src@ == rem.skip(line_consumed(rem, max_len)),
            decreases rem.len() - consumed,
        {
            if src.pos == src.data.len() {
                proof {
                    assert(src@.len() == 0);
                    assert(consumed == rem.len());
                    lemma_scan_from(rem, nl_pred(), k, rem.len() as int);
                }
                break ;
            }
            let b = src.data[src.pos];
            proof {
                assert(src@.len() == src.data@.len() - src.pos);
                assert(consumed < rem.len());
                assert(src@[0] == src.data@[src.pos as int]);
                assert(src@[0] == rem[consumed]);
                assert(src.data@.skip(src.pos + 1) =~= src@.skip(1));
                assert(rem.skip(consumed + 1) =~= rem.skip(consumed).skip(1));
            }
            src.pos = src.pos + 1;
            proof {
                consumed = consumed + 1;
            }
            if b == 10 {
                proof {
                    lemma_scan_from(rem, nl_pred(), k, consumed - 1);
                }
                break ;
            }
        }
    }
    sanitize_text(line.as_str(), max_len)
}

} // verus!
