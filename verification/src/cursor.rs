use vstd::prelude::*;

use crate::error::{ErrS, VisitError};
use crate::trusted::string_from_utf8;
use vstd::slice::{slice_subrange, slice_to_vec};
use vstd::utf8::{decode_utf8, valid_utf8};

verus! {

/// An ASCII whitespace byte, as `u8::is_ascii_whitespace` has it.
pub open spec fn is_ws(b: u8) -> bool {
    b == 32 || b == 9 || b == 10 || b == 12 || b == 13
}

/// The position after any whitespace run starting at `i`; reading past the
/// end of the source while still skipping is a failure.
pub open spec fn scan_ws(s: Seq<u8>, i: int) -> Result<int, ErrS>
    decreases s.len() - i,
{
    if i < 0 || i >= s.len() {
        Err(ErrS::EndOfStream)
    } else if is_ws(s[i]) {
        scan_ws(s, i + 1)
    } else {
        Ok(i)
    }
}

/// The position after a token run: bytes that are neither the stop byte nor
/// whitespace.
pub open spec fn scan_token(s: Seq<u8>, i: int, stop: u8) -> Result<int, ErrS>
    decreases s.len() - i,
{
    if i < 0 || i >= s.len() {
        Err(ErrS::EndOfStream)
    } else if s[i] != stop && !is_ws(s[i]) {
        scan_token(s, i + 1, stop)
    } else {
        Ok(i)
    }
}

/// The position of the next stop byte at or after `i`.
pub open spec fn scan_until(s: Seq<u8>, i: int, stop: u8) -> Result<int, ErrS>
    decreases s.len() - i,
{
    if i < 0 || i >= s.len() {
        Err(ErrS::EndOfStream)
    } else if s[i] != stop {
        scan_until(s, i + 1, stop)
    } else {
        Ok(i)
    }
}

/// The whitespace-tolerant token extraction at the heart of the text
/// grammar: skip leading whitespace, take bytes up to the stop byte or
/// whitespace, skip anything up to the stop byte if whitespace follows, and
/// finally consume the stop byte if it is next.
pub open spec fn sp_token(s: Seq<u8>, i: int, stop: u8) -> Result<(Seq<u8>, int), ErrS> {
    match scan_ws(s, i) {
        Err(e) => Err(e),
        Ok(j0) => match scan_token(s, j0, stop) {
            Err(e) => Err(e),
            Ok(j1) => {
                let tok = s.subrange(j0, j1);
                if is_ws(s[j1]) {
                    match scan_until(s, j1, stop) {
                        Err(e) => Err(e),
                        Ok(j2) => if s[j2] == stop {
                            Ok((tok, j2 + 1))
                        } else {
                            Ok((tok, j2))
                        },
                    }
                } else {
                    if s[j1] == stop {
                        Ok((tok, j1 + 1))
                    } else {
                        Ok((tok, j1))
                    }
                }
            },
        },
    }
}

proof fn lemma_scan_ws_range(s: Seq<u8>, i: int, j: int)
    requires
        0 <= i <= j <= s.len(),
        forall|k: int| i <= k < j ==> is_ws(#[trigger] s[k]),
        j < s.len() ==> !is_ws(s[j]),
    ensures
        scan_ws(s, i) == (if j < s.len() {
            Ok::<int, ErrS>(j)
        } else {
            Err::<int, ErrS>(ErrS::EndOfStream)
        }),
    decreases j - i,
{
    if i < j {
        lemma_scan_ws_range(s, i + 1, j);
    }
}

proof fn lemma_scan_token_range(s: Seq<u8>, i: int, j: int, stop: u8)
    requires
        0 <= i <= j <= s.len(),
        forall|k: int| i <= k < j ==> (#[trigger] s[k]) != stop && !is_ws(s[k]),
        j < s.len() ==> s[j] == stop || is_ws(s[j]),
    ensures
        scan_token(s, i, stop) == (if j < s.len() {
            Ok::<int, ErrS>(j)
        } else {
            Err::<int, ErrS>(ErrS::EndOfStream)
        }),
    decreases j - i,
{
    if i < j {
        lemma_scan_token_range(s, i + 1, j, stop);
    }
}

proof fn lemma_scan_until_range(s: Seq<u8>, i: int, j: int, stop: u8)
    requires
        0 <= i <= j <= s.len(),
        forall|k: int| i <= k < j ==> (#[trigger] s[k]) != stop,
        j < s.len() ==> s[j] == stop,
    ensures
        scan_until(s, i, stop) == (if j < s.len() {
            Ok::<int, ErrS>(j)
        } else {
            Err::<int, ErrS>(ErrS::EndOfStream)
        }),
    decreases j - i,
{
    if i < j {
        lemma_scan_until_range(s, i + 1, j, stop);
    }
}

proof fn lemma_scan_ws_bounds(s: Seq<u8>, i: int)
    requires
        0 <= i <= s.len(),
    ensures
        scan_ws(s, i) matches Ok(j) ==> i <= j < s.len() && !is_ws(s[j]),
    decreases s.len() - i,
{
    if i < s.len() && is_ws(s[i]) {
        lemma_scan_ws_bounds(s, i + 1);
    }
}

proof fn lemma_scan_token_bounds(s: Seq<u8>, i: int, stop: u8)
    requires
        0 <= i <= s.len(),
    ensures
        scan_token(s, i, stop) matches Ok(j) ==> i <= j < s.len() && (s[j] == stop || is_ws(
            s[j],
        )),
    decreases s.len() - i,
{
    if i < s.len() && s[i] != stop && !is_ws(s[i]) {
        lemma_scan_token_bounds(s, i + 1, stop);
    }
}

proof fn lemma_scan_until_bounds(s: Seq<u8>, i: int, stop: u8)
    requires
        0 <= i <= s.len(),
    ensures
        scan_until(s, i, stop) matches Ok(j) ==> i <= j < s.len() && s[j] == stop,
    decreases s.len() - i,
{
    if i < s.len() && s[i] != stop {
        lemma_scan_until_bounds(s, i + 1, stop);
    }
}

/// A successful token extraction always consumes at least one byte and
/// never runs past the source.
pub proof fn lemma_sp_token_progress(s: Seq<u8>, i: int, stop: u8)
    requires
        0 <= i <= s.len(),
        !is_ws(stop),
    ensures
        sp_token(s, i, stop) matches Ok((tb, j)) ==> i < j <= s.len(),
{
    lemma_scan_ws_bounds(s, i);
    match scan_ws(s, i) {
        Ok(j0) => {
            lemma_scan_token_bounds(s, j0, stop);
            match scan_token(s, j0, stop) {
                Ok(j1) => {
                    if is_ws(s[j1]) {
                        lemma_scan_until_bounds(s, j1, stop);
                    }
                },
                Err(_) => {},
            }
        },
        Err(_) => {},
    }
}

fn is_ws_byte(b: u8) -> (r: bool)
    ensures
        r == is_ws(b),
{
    b == 32 || b == 9 || b == 10 || b == 12 || b == 13
}

/// A one-byte-lookahead cursor over an in-memory byte source: the
/// foundation of all text-grammar parsing.
pub struct ByteReader<'a> {
    pub data: &'a [u8],
    pub pos: usize,
}

impl<'a> ByteReader<'a> {
    /// The read position never runs past the source.
    pub open spec fn wf(self) -> bool {
        self.pos <= self.data@.len()
    }

    pub fn new(src: &'a [u8]) -> (r: ByteReader<'a>)
        ensures
            r.data@ == src@,
            r.pos == 0,
            r.wf(),
    {
        ByteReader { data: src, pos: 0 }
    }

    /// The next byte, without consuming it.
    pub fn peek(&mut self) -> (r: Result<u8, VisitError>)
        requires
            old(self).wf(),
        ensures
            *final(self) == *old(self),
            r == (if old(self).pos < old(self).data@.len() {
                Ok::<u8, VisitError>(old(self).data@[old(self).pos as int])
            } else {
                Err::<u8, VisitError>(VisitError::EndOfStream)
            }),
    {
        if self.pos < self.data.len() {
            Ok(self.data[self.pos])
        } else {
            Err(VisitError::EndOfStream)
        }
    }

    /// The next byte, consuming it.
    pub fn next(&mut self) -> (r: Result<u8, VisitError>)
        requires
            old(self).wf(),
        ensures
            final(self).wf(),
            final(self).data@ == old(self).data@,
            if old(self).pos < old(self).data@.len() {
                r == Ok::<u8, VisitError>(old(self).data@[old(self).pos as int])
                    && final(self).pos == old(self).pos + 1
            } else {
                r == Err::<u8, VisitError>(VisitError::EndOfStream) && *final(self) == *old(self)
            },
    {
        if self.pos < self.data.len() {
            let b = self.data[self.pos];
            self.pos = self.pos + 1;
            Ok(b)
        } else {
            Err(VisitError::EndOfStream)
        }
    }

    /// Consume bytes while the predicate holds of them; stop at the first
    /// byte it rejects, which stays unconsumed. Running out of input while
    /// still consuming is a failure.
    pub fn skip_until<F: Fn(u8) -> bool>(&mut self, f: F) -> (r: Result<(), VisitError>)
        requires
            old(self).wf(),
            forall|b: u8| #[trigger] f.requires((b,)),
        ensures
            final(self).wf(),
            final(self).data@ == old(self).data@,
            old(self).pos <= final(self).pos,
            forall|k: int|
                old(self).pos <= k < final(self).pos ==> call_ensures(
                    f,
                    (old(self).data@[k],),
                    true,
                ),
            match r {
                Ok(_) => (final(self).pos as int) < old(self).data@.len() && call_ensures(
                    f,
                    (old(self).data@[final(self).pos as int],),
                    false,
                ),
                Err(e) => e == VisitError::EndOfStream && final(self).pos
                    == old(self).data@.len(),
            },
    {
        loop
            invariant
                self.wf(),
                self.data@ == old(self).data@,
                old(self).pos <= self.pos,
                forall|b: u8| #[trigger] f.requires((b,)),
                forall|k: int|
                    old(self).pos <= k < self.pos ==> call_ensures(f, (self.data@[k],), true),
            decreases self.data@.len() - self.pos,
        {
            if self.pos >= self.data.len() {
                return Err(VisitError::EndOfStream);
            }
            let b = self.data[self.pos];
            if f(b) {
                self.pos = self.pos + 1;
            } else {
                return Ok(());
            }
        }
    }

    /// Consume any run of ASCII whitespace.
    pub fn skip_ws(&mut self) -> (r: Result<(), VisitError>)
        requires
            old(self).wf(),
        ensures
            final(self).wf(),
            final(self).data@ == old(self).data@,
            old(self).pos <= final(self).pos,
            match scan_ws(old(self).data@, old(self).pos as int) {
                Ok(j) => r is Ok && final(self).pos as int == j,
                Err(e) => r matches Err(er) && er@ == e && final(self).pos
                    == old(self).data@.len(),
            },
    {
        let ghost i0 = self.pos as int;
        loop
            invariant
                self.wf(),
                self.data@ == old(self).data@,
                i0 == old(self).pos as int,
                i0 <= self.pos as int,
                forall|k: int| i0 <= k < self.pos as int ==> is_ws(#[trigger] self.data@[k]),
            decreases self.data@.len() - self.pos,
        {
            if self.pos >= self.data.len() {
                proof {
                    lemma_scan_ws_range(self.data@, i0, self.pos as int);
                }
                return Err(VisitError::EndOfStream);
            }
            let b = self.data[self.pos];
            if is_ws_byte(b) {
                self.pos = self.pos + 1;
            } else {
                proof {
                    lemma_scan_ws_range(self.data@, i0, self.pos as int);
                }
                return Ok(());
            }
        }
    }

    /// Consume exactly `count` bytes, or fail at the end of the source.
    pub fn skip_n(&mut self, count: usize) -> (r: Result<(), VisitError>)
        requires
            old(self).wf(),
        ensures
            final(self).wf(),
            final(self).data@ == old(self).data@,
            old(self).pos <= final(self).pos,
            if old(self).pos + count <= old(self).data@.len() {
                r is Ok && final(self).pos == old(self).pos + count
            } else {
                r == Err::<(), VisitError>(VisitError::EndOfStream) && final(self).pos
                    == old(self).data@.len()
            },
    {
        if self.data.len() - self.pos >= count {
            self.pos = self.pos + count;
            Ok(())
        } else {
            self.pos = self.data.len();
            Err(VisitError::EndOfStream)
        }
    }

    /// Consume bytes while the predicate holds, appending them to `buf`.
    pub fn read_until<F: Fn(u8) -> bool>(&mut self, buf: &mut Vec<u8>, f: F) -> (r: Result<
        (),
        VisitError,
    >)
        requires
            old(self).wf(),
            forall|b: u8| #[trigger] f.requires((b,)),
        ensures
            final(self).wf(),
            final(self).data@ == old(self).data@,
            old(self).pos <= final(self).pos,
            final(buf)@ == old(buf)@ + old(self).data@.subrange(
                old(self).pos as int,
                final(self).pos as int,
            ),
            forall|k: int|
                old(self).pos <= k < final(self).pos ==> call_ensures(
                    f,
                    (old(self).data@[k],),
                    true,
                ),
            match r {
                Ok(_) => (final(self).pos as int) < old(self).data@.len() && call_ensures(
                    f,
                    (old(self).data@[final(self).pos as int],),
                    false,
                ),
                Err(e) => e == VisitError::EndOfStream && final(self).pos
                    == old(self).data@.len(),
            },
    {
        let ghost i0 = self.pos as int;
        loop
            invariant
                self.wf(),
                self.data@ == old(self).data@,
                i0 == old(self).pos as int,
                i0 <= self.pos as int,
                forall|b: u8| #[trigger] f.requires((b,)),
                buf@ == old(buf)@ + self.data@.subrange(i0, self.pos as int),
                forall|k: int|
                    i0 <= k < self.pos as int ==> call_ensures(f, (self.data@[k],), true),
            decreases self.data@.len() - self.pos,
        {
            if self.pos >= self.data.len() {
                return Err(VisitError::EndOfStream);
            }
            let b = self.data[self.pos];
            if f(b) {
                buf.push(b);
                self.pos = self.pos + 1;
                proof {
                    assert(buf@ =~= old(buf)@ + self.data@.subrange(i0, self.pos as int));
                }
            } else {
                return Ok(());
            }
        }
    }

    /// Read bytes while the predicate holds into a UTF-8 string.
    pub fn read_str_until<F: Fn(u8) -> bool>(&mut self, f: F) -> (r: Result<String, VisitError>)
        requires
            old(self).wf(),
            forall|b: u8| #[trigger] f.requires((b,)),
        ensures
            final(self).wf(),
            final(self).data@ == old(self).data@,
            old(self).pos <= final(self).pos,
            forall|k: int|
                old(self).pos <= k < final(self).pos ==> call_ensures(
                    f,
                    (old(self).data@[k],),
                    true,
                ),
            match r {
                Ok(st) => {
                    let tok = old(self).data@.subrange(
                        old(self).pos as int,
                        final(self).pos as int,
                    );
                    (final(self).pos as int) < old(self).data@.len() && call_ensures(
                        f,
                        (old(self).data@[final(self).pos as int],),
                        false,
                    ) && valid_utf8(tok) && st@ == decode_utf8(tok)
                },
                Err(e) => (e == VisitError::EndOfStream && final(self).pos
                    == old(self).data@.len()) || (e == VisitError::InvalidUtf8 && !valid_utf8(
                    old(self).data@.subrange(old(self).pos as int, final(self).pos as int),
                )),
            },
    {
        let mut buf: Vec<u8> = Vec::new();
        match self.read_until(&mut buf, f) {
            Ok(_) => (),
            Err(e) => {
                return Err(e);
            },
        }
        match string_from_utf8(buf) {
            Some(st) => Ok(st),
            None => Err(VisitError::InvalidUtf8),
        }
    }

    /// The raw bytes of one whitespace-tolerant token.
    #[verifier::loop_isolation(false)]
    pub(crate) fn read_token_bytes(&mut self, stop: u8) -> (r: Result<Vec<u8>, VisitError>)
        requires
            old(self).wf(),
        ensures
            final(self).wf(),
            final(self).data@ == old(self).data@,
            old(self).pos <= final(self).pos,
            match sp_token(old(self).data@, old(self).pos as int, stop) {
                Ok((tb, j)) => r matches Ok(v) && v@ == tb && final(self).pos as int == j,
                Err(e) => r matches Err(er) && er@ == e,
            },
    {
        let ghost s = self.data@;
        match self.skip_ws() {
            Ok(_) => (),
            Err(e) => {
                return Err(e);
            },
        }
        let start = self.pos;
        while self.pos < self.data.len() && self.data[self.pos] != stop && !is_ws_byte(
            self.data[self.pos],
        )
            invariant
                self.data@ == s,
                start <= self.pos,
                self.pos <= self.data@.len(),
                forall|k: int|
                    start <= k < self.pos as int ==> (#[trigger] s[k]) != stop && !is_ws(s[k]),
            decreases s.len() - self.pos,
        {
            self.pos = self.pos + 1;
        }
        proof {
            lemma_scan_token_range(s, start as int, self.pos as int, stop);
        }
        if self.pos >= self.data.len() {
            return Err(VisitError::EndOfStream);
        }
        let tok = slice_to_vec(slice_subrange(self.data, start, self.pos));
        let here = self.data[self.pos];
        if is_ws_byte(here) {
            let ghost u0 = self.pos as int;
            while self.pos < self.data.len() && self.data[self.pos] != stop
                invariant
                    self.data@ == s,
                    u0 <= self.pos as int,
                    self.pos <= self.data@.len(),
                    forall|k: int| u0 <= k < self.pos as int ==> (#[trigger] s[k]) != stop,
                decreases s.len() - self.pos,
            {
                self.pos = self.pos + 1;
            }
            proof {
                lemma_scan_until_range(s, u0, self.pos as int, stop);
            }
            if self.pos >= self.data.len() {
                return Err(VisitError::EndOfStream);
            }
        }
        if self.data[self.pos] == stop {
            self.pos = self.pos + 1;
        }
        Ok(tok)
    }

    /// Skip to the next occurrence of `stop` and consume it.
    pub(crate) fn skip_to_past(&mut self, stop: u8) -> (r: Result<(), VisitError>)
        requires
            old(self).wf(),
        ensures
            final(self).wf(),
            final(self).data@ == old(self).data@,
            old(self).pos <= final(self).pos,
            match scan_until(old(self).data@, old(self).pos as int, stop) {
                Ok(j) => r is Ok && final(self).pos as int == j + 1,
                Err(e) => r matches Err(er) && er@ == e,
            },
    {
        let ghost s = self.data@;
        let ghost i0 = self.pos as int;
        while self.pos < self.data.len() && self.data[self.pos] != stop
            invariant
                self.data@ == s,
                i0 <= self.pos as int,
                self.pos <= self.data@.len(),
                forall|k: int| i0 <= k < self.pos as int ==> (#[trigger] s[k]) != stop,
            decreases s.len() - self.pos,
        {
            self.pos = self.pos + 1;
        }
        proof {
            lemma_scan_until_range(s, i0, self.pos as int, stop);
        }
        if self.pos >= self.data.len() {
            return Err(VisitError::EndOfStream);
        }
        self.pos = self.pos + 1;
        Ok(())
    }

    /// One token as a UTF-8 string: the core extraction primitive of the
    /// text grammar.
    pub fn read_str_until_skip_ws(&mut self, stop: u8) -> (r: Result<String, VisitError>)
        requires
            old(self).wf(),
        ensures
            final(self).wf(),
            final(self).data@ == old(self).data@,
            old(self).pos <= final(self).pos,
            match sp_token(old(self).data@, old(self).pos as int, stop) {
                Ok((tb, j)) => final(self).pos as int == j && (if valid_utf8(tb) {
                    r matches Ok(st) && st@ == decode_utf8(tb)
                } else {
                    r == Err::<String, VisitError>(VisitError::InvalidUtf8)
                }),
                Err(e) => r matches Err(er) && er@ == e,
            },
    {
        let tb = match self.read_token_bytes(stop) {
            Ok(v) => v,
            Err(e) => {
                return Err(e);
            },
        };
        match string_from_utf8(tb) {
            Some(st) => Ok(st),
            None => Err(VisitError::InvalidUtf8),
        }
    }
}

} // verus!
