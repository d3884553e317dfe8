//! One upload: its declared size, the most that one request may add, and how
//! far it has been written.
//!
//! The session decides; somebody else writes. A request is turned into a
//! [`ChunkWrite`], which tells where the bytes go and how many of them are
//! taken, and the cursor moves on once the writer reports how many bytes
//! reached the file. No write goes past the declared size: a request adds
//! at most a chunk, and at most what is left between the cursor and the
//! size, so the cursor of a session never exceeds its size.

use vstd::prelude::*;

use crate::error::ErrorKind;

verus! {

/// The state of one upload. A session is made by [`UploadSession::new`] and
/// moved on by [`UploadSession::advance`], and both keep the cursor within
/// the declared size.
#[derive(Clone, Copy, Debug, PartialEq, Eq, Structural)]
pub struct UploadSession {
    /// The length that the finished file was declared to have.
    pub size: u64,
    /// The most bytes that a single request may add.
    pub chunk: u64,
    /// The offset at which the next bytes are written: the number of bytes
    /// written so far.
    pub cursor: u64,
}

/// Where the accepted part of a request body goes: its first `len` bytes are
/// written at `offset`.
#[derive(Clone, Copy, Debug, PartialEq, Eq, Structural)]
pub struct ChunkWrite {
    pub offset: u64,
    pub len: usize,
}

/// An upload as three natural numbers.
pub struct SessionModel {
    pub size: nat,
    pub chunk: nat,
    pub cursor: nat,
}

impl View for UploadSession {
    type V = SessionModel;

    open spec fn view(&self) -> SessionModel {
        SessionModel { size: self.size as nat, chunk: self.chunk as nat, cursor: self.cursor as nat }
    }
}

/// The file after `data` has been written at `offset`. Bytes outside the
/// written range stay; where the file was shorter than `offset`, the gap
/// reads as zeros.
pub open spec fn write_at(file: Seq<u8>, offset: nat, data: Seq<u8>) -> Seq<u8> {
    Seq::new(
        if file.len() >= offset + data.len() {
            file.len()
        } else {
            offset + data.len()
        },
        |i: int|
            if offset <= i < offset + data.len() {
                data[i - offset]
            } else if i < file.len() {
                file[i]
            } else {
                0u8
            },
    )
}

impl SessionModel {
    /// An upload of which nothing has been written yet.
    pub open spec fn fresh(size: nat, chunk: nat) -> SessionModel {
        SessionModel { size, chunk, cursor: 0 }
    }

    /// Whether a write request is taken: the cursor is short of the declared
    /// size.
    pub open spec fn accepts(self) -> bool {
        self.cursor < self.size
    }

    /// The invariant of a session: the cursor is within the declared size.
    pub open spec fn wf(self) -> bool {
        self.cursor <= self.size
    }

    /// How many bytes are left between the cursor and the declared size.
    pub open spec fn room(self) -> nat {
        if self.cursor <= self.size {
            (self.size - self.cursor) as nat
        } else {
            0
        }
    }

    /// The most that one request may add: a chunk, or what is left where
    /// that is less.
    pub open spec fn most(self) -> nat {
        if self.chunk <= self.room() {
            self.chunk
        } else {
            self.room()
        }
    }

    /// How many bytes of a body of `body_len` bytes one request adds: the
    /// least of the length of the body, the chunk size, and what is left
    /// between the cursor and the declared size.
    pub open spec fn taken(self, body_len: nat) -> nat {
        if body_len <= self.most() {
            body_len
        } else {
            self.most()
        }
    }

    /// The part of `body` that a request adds to the file: its first
    /// `taken` bytes. Nothing where the request is refused.
    pub open spec fn part(self, body: Seq<u8>) -> Seq<u8> {
        if self.accepts() {
            body.take(self.taken(body.len()) as int)
        } else {
            Seq::empty()
        }
    }

    /// What a write request with a body of `body_len` bytes does: a bad
    /// request where the cursor has reached the size, and else a write of
    /// `taken` bytes at the cursor.
    pub open spec fn planned(self, body_len: nat) -> Result<ChunkWrite, ErrorKind> {
        if self.accepts() {
            Ok(ChunkWrite { offset: self.cursor as u64, len: self.taken(body_len) as usize })
        } else {
            Err(ErrorKind::BadRequest)
        }
    }

    /// The session after `n` more bytes have been written.
    pub open spec fn advance(self, n: nat) -> SessionModel {
        SessionModel { cursor: self.cursor + n, ..self }
    }

    /// The session after a request with `body` has been served.
    pub open spec fn receive(self, body: Seq<u8>) -> SessionModel {
        self.advance(self.part(body).len())
    }

    /// The file after a request with `body` has been served.
    pub open spec fn store(self, file: Seq<u8>, body: Seq<u8>) -> Seq<u8> {
        if self.accepts() {
            write_at(file, self.cursor, self.part(body))
        } else {
            file
        }
    }

    /// The session after the requests `bodies` have been served in order.
    pub open spec fn receive_all(self, bodies: Seq<Seq<u8>>) -> SessionModel
        decreases bodies.len(),
    {
        if bodies.len() == 0 {
            self
        } else {
            self.receive(bodies[0]).receive_all(bodies.skip(1))
        }
    }

    /// The file after the requests `bodies` have been served in order.
    pub open spec fn store_all(self, file: Seq<u8>, bodies: Seq<Seq<u8>>) -> Seq<u8>
        decreases bodies.len(),
    {
        if bodies.len() == 0 {
            file
        } else {
            self.receive(bodies[0]).store_all(self.store(file, bodies[0]), bodies.skip(1))
        }
    }

    /// What the requests `bodies` add to the file, one part after the other.
    pub open spec fn stream(self, bodies: Seq<Seq<u8>>) -> Seq<u8>
        decreases bodies.len(),
    {
        if bodies.len() == 0 {
            Seq::empty()
        } else {
            self.part(bodies[0]) + self.receive(bodies[0]).stream(bodies.skip(1))
        }
    }

    /// Whether each of the requests `bodies`, served in order, is taken, and
    /// taken whole: none comes after the cursor has reached the size, and
    /// none carries more than a chunk or more than what is left.
    pub open spec fn takes_whole(self, bodies: Seq<Seq<u8>>) -> bool
        decreases bodies.len(),
    {
        bodies.len() == 0 || (self.accepts() && bodies[0].len() <= self.most() && self.receive(
            bodies[0],
        ).takes_whole(bodies.skip(1)))
    }
}

/// `payload` cut into consecutive pieces of `chunk` bytes, the last one
/// shorter where the length is no multiple of `chunk`.
pub open spec fn pieces(payload: Seq<u8>, chunk: nat) -> Seq<Seq<u8>>
    decreases payload.len(),
{
    if payload.len() == 0 || chunk == 0 {
        Seq::empty()
    } else if payload.len() <= chunk {
        seq![payload]
    } else {
        seq![payload.take(chunk as int)] + pieces(payload.skip(chunk as int), chunk)
    }
}

/// Requests write one after the other: whatever was in the file below the
/// cursor stays, what the requests add follows it from the cursor on, and the
/// cursor ends behind the last byte added.
pub proof fn lemma_writes_are_consecutive(s: SessionModel, file: Seq<u8>, bodies: Seq<Seq<u8>>)
    requires
        s.cursor <= file.len(),
    ensures
        s.receive_all(bodies).cursor == s.cursor + s.stream(bodies).len(),
        s.receive_all(bodies).cursor <= s.store_all(file, bodies).len(),
        file.len() <= s.store_all(file, bodies).len(),
        s.store_all(file, bodies).take(s.cursor as int) == file.take(s.cursor as int),
        s.store_all(file, bodies).subrange(s.cursor as int, s.receive_all(bodies).cursor as int)
            == s.stream(bodies),
    decreases bodies.len(),
{
    if bodies.len() == 0 {
        assert(file.subrange(s.cursor as int, s.cursor as int) =~= Seq::<u8>::empty());
    } else {
        let next = s.receive(bodies[0]);
        let stored = s.store(file, bodies[0]);
        let rest = bodies.skip(1);
        lemma_writes_are_consecutive(next, stored, rest);
        let end = next.store_all(stored, rest);
        let last = next.receive_all(rest).cursor as int;
        assert(stored.take(s.cursor as int) =~= file.take(s.cursor as int));
        assert(stored.subrange(s.cursor as int, next.cursor as int) =~= s.part(bodies[0]));
        assert(end.take(s.cursor as int) =~= end.take(next.cursor as int).take(s.cursor as int));
        assert(end.subrange(s.cursor as int, last) =~= end.take(next.cursor as int).subrange(
            s.cursor as int,
            next.cursor as int,
        ) + end.subrange(next.cursor as int, last));
    }
}

/// The bytes of the file from its start to the cursor are the parts that
/// the requests added, in the order of the requests.
pub proof fn lemma_file_holds_stream(size: nat, chunk: nat, file: Seq<u8>, bodies: Seq<Seq<u8>>)
    ensures
        ({
            let s = SessionModel::fresh(size, chunk);
            &&& s.receive_all(bodies).cursor == s.stream(bodies).len()
            &&& s.store_all(file, bodies).take(s.receive_all(bodies).cursor as int) == s.stream(
                bodies,
            )
        }),
{
    let s = SessionModel::fresh(size, chunk);
    lemma_writes_are_consecutive(s, file, bodies);
    let end = s.store_all(file, bodies);
    assert(end.take(s.receive_all(bodies).cursor as int) =~= end.subrange(
        0,
        s.receive_all(bodies).cursor as int,
    ));
}

/// Requests that are taken whole add their bodies, one after the other.
pub proof fn lemma_whole_bodies_concatenate(s: SessionModel, bodies: Seq<Seq<u8>>)
    requires
        s.takes_whole(bodies),
    ensures
        s.stream(bodies) == bodies.flatten(),
    decreases bodies.len(),
{
    if bodies.len() > 0 {
        assert(s.part(bodies[0]) =~= bodies[0]);
        assert(bodies.drop_first() =~= bodies.skip(1));
        lemma_whole_bodies_concatenate(s.receive(bodies[0]), bodies.skip(1));
    }
}

/// After any sequence of accepted write requests on a new session, each of
/// them taken whole, the file holds from its start to the cursor the bodies
/// of the requests, one after the other.
pub proof fn lemma_file_holds_bodies(size: nat, chunk: nat, file: Seq<u8>, bodies: Seq<Seq<u8>>)
    requires
        SessionModel::fresh(size, chunk).takes_whole(bodies),
    ensures
        ({
            let s = SessionModel::fresh(size, chunk);
            &&& s.receive_all(bodies).cursor == bodies.flatten().len()
            &&& s.store_all(file, bodies).take(s.receive_all(bodies).cursor as int)
                == bodies.flatten()
        }),
{
    lemma_file_holds_stream(size, chunk, file, bodies);
    lemma_whole_bodies_concatenate(SessionModel::fresh(size, chunk), bodies);
}

/// The cursor never moves back.
pub proof fn lemma_cursor_never_decreases(s: SessionModel, bodies: Seq<Seq<u8>>, k: int)
    requires
        0 <= k <= bodies.len(),
    ensures
        s.cursor <= s.receive_all(bodies.take(k)).cursor <= s.receive_all(bodies).cursor,
    decreases bodies.len(),
{
    if bodies.len() == 0 {
        assert(bodies.take(k) =~= bodies);
    } else if k == 0 {
        lemma_cursor_never_decreases(s.receive(bodies[0]), bodies.skip(1), 0);
    } else {
        assert(bodies.take(k)[0] == bodies[0]);
        assert(bodies.take(k).skip(1) =~= bodies.skip(1).take(k - 1));
        lemma_cursor_never_decreases(s.receive(bodies[0]), bodies.skip(1), k - 1);
    }
}

/// Whatever the requests carry, a session whose cursor is within its size
/// keeps it there. As this holds of every sequence of requests, it holds
/// after each request of a sequence.
pub proof fn lemma_cursor_within_size(s: SessionModel, bodies: Seq<Seq<u8>>)
    requires
        s.wf(),
    ensures
        s.receive_all(bodies).wf(),
        s.receive_all(bodies).size == s.size,
    decreases bodies.len(),
{
    if bodies.len() > 0 {
        lemma_cursor_within_size(s.receive(bodies[0]), bodies.skip(1));
    }
}

/// The cursor of a new session never exceeds the declared size, whatever
/// requests are served and however many of them.
pub proof fn lemma_new_session_stays_within_size(size: nat, chunk: nat, bodies: Seq<Seq<u8>>, k: int)
    requires
        0 <= k <= bodies.len(),
    ensures
        SessionModel::fresh(size, chunk).receive_all(bodies.take(k)).cursor <= size,
{
    lemma_cursor_within_size(SessionModel::fresh(size, chunk), bodies.take(k));
}

/// No request makes the file longer: a file of the declared size still has
/// that size after any sequence of requests.
pub proof fn lemma_file_keeps_its_size(s: SessionModel, file: Seq<u8>, bodies: Seq<Seq<u8>>)
    requires
        s.wf(),
        file.len() == s.size,
    ensures
        s.store_all(file, bodies).len() == s.size,
    decreases bodies.len(),
{
    if bodies.len() > 0 {
        lemma_file_keeps_its_size(s.receive(bodies[0]), s.store(file, bodies[0]), bodies.skip(1));
    }
}

/// A payload cut into pieces has as many pieces as its length divided by
/// the chunk size, rounded up, and none is longer than a chunk.
pub proof fn lemma_pieces_count(payload: Seq<u8>, chunk: nat)
    requires
        chunk > 0,
    ensures
        pieces(payload, chunk).len() == (payload.len() + chunk - 1) / (chunk as int),
        forall|i: int|
            0 <= i < pieces(payload, chunk).len() ==> 0 < (#[trigger] pieces(payload, chunk)[i]).len()
                <= chunk,
    decreases payload.len(),
{
    let n = payload.len() as int;
    let c = chunk as int;
    if n == 0 {
        assert((n + c - 1) / c == 0) by (nonlinear_arith)
            requires
                n == 0,
                c > 0,
        ;
    } else if n <= c {
        assert((n + c - 1) / c == 1) by (nonlinear_arith)
            requires
                0 < n <= c,
        ;
    } else {
        let rest = payload.skip(c);
        lemma_pieces_count(rest, chunk);
        assert(((n - c) + c - 1) / c + 1 == (n + c - 1) / c) by (nonlinear_arith)
            requires
                n > c,
                c > 0,
        ;
    }
}

/// The file cut to pieces and written piece by piece: from a cursor below
/// which the file already holds the payload, the requests that carry the
/// rest of the payload leave the file equal to the payload.
proof fn lemma_pieces_complete(s: SessionModel, file: Seq<u8>, payload: Seq<u8>)
    requires
        s.chunk > 0,
        s.size == payload.len(),
        file.len() == payload.len(),
        s.cursor <= payload.len(),
        file.take(s.cursor as int) == payload.take(s.cursor as int),
    ensures
        s.store_all(file, pieces(payload.skip(s.cursor as int), s.chunk)) == payload,
        s.receive_all(pieces(payload.skip(s.cursor as int), s.chunk)).cursor == payload.len(),
    decreases payload.len() - s.cursor,
{
    let left = payload.skip(s.cursor as int);
    let bodies = pieces(left, s.chunk);
    if left.len() == 0 {
        assert(file =~= file.take(s.cursor as int));
        assert(payload =~= payload.take(s.cursor as int));
    } else {
        let body = bodies[0];
        assert(body == if left.len() <= s.chunk {
            left
        } else {
            left.take(s.chunk as int)
        });
        assert(s.part(body) =~= body);
        let next = s.receive(body);
        let stored = s.store(file, body);
        assert(stored.take(next.cursor as int) =~= payload.take(next.cursor as int)) by {
            assert forall|i: int| 0 <= i < next.cursor implies stored[i] == payload[i] by {
                if i < s.cursor {
                    assert(file.take(s.cursor as int)[i] == file[i]);
                    assert(payload.take(s.cursor as int)[i] == payload[i]);
                } else {
                    assert(body[i - s.cursor] == left[i - s.cursor]);
                }
            }
        }
        if left.len() <= s.chunk {
            assert(bodies.skip(1) =~= Seq::<Seq<u8>>::empty());
            assert(payload.skip(next.cursor as int).len() == 0);
            assert(bodies.skip(1) =~= pieces(payload.skip(next.cursor as int), s.chunk));
        } else {
            assert(left.skip(s.chunk as int) =~= payload.skip(next.cursor as int));
            assert(bodies.skip(1) =~= pieces(payload.skip(next.cursor as int), s.chunk));
        }
        lemma_pieces_complete(next, stored, payload);
    }
}

/// An upload that is sent whole arrives whole: a file of the declared size,
/// written by the requests that carry the payload piece by piece, ends up
/// equal to the payload, with the cursor at its end.
pub proof fn lemma_upload_round_trip(payload: Seq<u8>, chunk: nat, file: Seq<u8>)
    requires
        chunk > 0,
        file.len() == payload.len(),
    ensures
        ({
            let s = SessionModel::fresh(payload.len(), chunk);
            &&& s.store_all(file, pieces(payload, chunk)) == payload
            &&& s.receive_all(pieces(payload, chunk)).cursor == payload.len()
        }),
{
    let s = SessionModel::fresh(payload.len(), chunk);
    assert(payload.skip(0) =~= payload);
    assert(file.take(0) =~= payload.take(0));
    lemma_pieces_complete(s, file, payload);
}

impl UploadSession {
    /// Starts an upload of `size` bytes that takes at most `chunk` bytes per
    /// request.
    pub fn new(size: u64, chunk: u64) -> (s: UploadSession)
        ensures
            s@ == SessionModel::fresh(size as nat, chunk as nat),
            s@.wf(),
            s.size == size,
            s.chunk == chunk,
            s.cursor == 0,
    {
        UploadSession { size, chunk, cursor: 0 }
    }

    /// Tells whether every declared byte has been written, so that further
    /// requests are refused.
    pub fn is_complete(&self) -> (done: bool)
        ensures
            done == !self@.accepts(),
    {
        self.cursor >= self.size
    }

    /// Returns the most bytes that the next request may add: a chunk, or
    /// what is left between the cursor and the size where that is less.
    pub fn limit(&self) -> (most: u64)
        ensures
            most == self@.most(),
            self.cursor + most <= u64::MAX,
            self@.wf() ==> self.cursor + most <= self.size,
    {
        if self.cursor >= self.size {
            0
        } else {
            let room: u64 = self.size - self.cursor;
            if self.chunk <= room {
                self.chunk
            } else {
                room
            }
        }
    }

    /// Decides what a write request with `body` does. A session whose cursor
    /// has reached its size refuses the request. Any other takes the first
    /// bytes of the body at the cursor: all of the body, or as many bytes as
    /// a chunk holds, or as many as are left up to the declared size,
    /// whichever is least. The write ends within the declared size.
    pub fn plan(&self, body: &[u8]) -> (r: Result<ChunkWrite, ErrorKind>)
        ensures
            r == self@.planned(body@.len()),
            match r {
                Ok(w) => {
                    &&& self@.accepts()
                    &&& w.offset == self.cursor
                    &&& w.len == self@.taken(body@.len())
                    &&& w.len <= body@.len()
                    &&& w.len <= self.chunk
                    &&& w.offset + w.len <= self.size
                    &&& body@.take(w.len as int) == self@.part(body@)
                },
                Err(e) => !self@.accepts() && e == ErrorKind::BadRequest,
            },
    {
        if self.cursor >= self.size {
            return Err(ErrorKind::BadRequest);
        }
        let most = self.limit();
        let len: usize = if most < body.len() as u64 {
            most as usize
        } else {
            body.len()
        };
        Ok(ChunkWrite { offset: self.cursor, len })
    }

    /// The session after `written` more bytes have reached the file. `None`
    /// where `written` is more than one request may add; a cursor that was
    /// within the size stays within it.
    pub fn advance(&self, written: u64) -> (r: Option<UploadSession>)
        ensures
            match r {
                Some(s) => {
                    &&& written <= self@.most()
                    &&& s@ == self@.advance(written as nat)
                    &&& s.cursor == self.cursor + written
                    &&& self@.wf() ==> s@.wf()
                    &&& s@.wf() || s == *self
                },
                None => written > self@.most(),
            },
    {
        if written > self.limit() {
            return None;
        }
        Some(UploadSession { size: self.size, chunk: self.chunk, cursor: self.cursor + written })
    }
}

} // verus!
