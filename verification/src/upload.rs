//! The three steps of an upload: create a session, write chunks, finalize.
//!
//! Each step is a decision on plain values. Creating and writing to the
//! file is the caller's part: it creates the file that [`create_file`]
//! names before it opens the session, writes what [`write_file`] accepts
//! where it says, and reports with [`chunk_written`] how many bytes reached
//! the file. No write and no report takes a session past its declared
//! size.

use vstd::prelude::*;

use crate::config::{Config, ConfigModel};
use crate::error::ErrorKind;
use crate::ident::{format_id, id_text, random_bytes};
use crate::path::{is_name, lies_under, all_names};
use crate::session::{ChunkWrite, UploadSession};
use crate::table::{within_size, SessionTable};

verus! {

/// What a create request leads to: the file to create, and the session to
/// open once the file is there.
#[derive(Debug, PartialEq, Eq)]
pub struct UploadPlan {
    pub path: String,
    pub session: UploadSession,
}

/// What `sanitise_file_name::sanitise` makes of a name.
pub uninterp spec fn sanitised(name: Seq<char>) -> Seq<char>;

/// `sanitise_file_name::sanitise` turns a name into one that is fit for a
/// file, with the options the crate uses by default: it replaces or drops
/// what a file name cannot hold. The result is a function of the name given.
#[verifier::external_body]
fn sanitise(name: &str) -> (clean: String)
    ensures
        clean@ == sanitised(name@),
{
    sanitise_file_name::sanitise(name)
}

/// Whether an upload of `size` bytes under the sanitised name `clean_name`
/// is taken: the size is within the limit, and the name names a directory
/// entry.
pub open spec fn admitted(cfg: ConfigModel, clean_name: Seq<char>, size: u64) -> bool {
    size <= cfg.max_file_size && is_name(clean_name)
}

/// The text of the path of an upload: the entry `clean_name` of the root.
pub open spec fn target_text(cfg: ConfigModel, clean_name: Seq<char>) -> Seq<char> {
    cfg.root.extend(seq![clean_name]).render()
}

/// Plans an upload whose name has been sanitised. The upload is refused as
/// a bad request where its size is over the limit or the name does not name
/// a directory entry. Any other upload goes to the entry of that name in the
/// root, with a session that starts at offset zero.
pub fn upload_target(cfg: &Config, clean_name: &str, chunk: u64, size: u64) -> (r: Result<
    UploadPlan,
    ErrorKind,
>)
    ensures
        match r {
            Ok(plan) => {
                &&& admitted(cfg@, clean_name@, size)
                &&& plan.path@ == target_text(cfg@, clean_name@)
                &&& plan.session == (UploadSession { size, chunk, cursor: 0 })
                &&& plan.session@.wf()
                &&& lies_under(cfg@.root, plan.path@)
            },
            Err(e) => !admitted(cfg@, clean_name@, size) && e == ErrorKind::BadRequest,
        },
{
    if size > cfg.max_file_size() {
        return Err(ErrorKind::BadRequest);
    }
    match cfg.root().child(clean_name) {
        Some(target) => {
            let path = target.render();
            proof {
                let tail = seq![clean_name@];
                assert(all_names(tail));
                assert(path@ == cfg@.root.extend(tail).render());
            }
            Ok(UploadPlan { path, session: UploadSession::new(size, chunk) })
        },
        None => Err(ErrorKind::BadRequest),
    }
}

/// Plans the upload that a create request asks for: the name is sanitised,
/// and the upload is planned under the sanitised name.
pub fn create_file(cfg: &Config, name: &str, chunk: u64, size: u64) -> (r: Result<UploadPlan, ErrorKind>)
    ensures
        match r {
            Ok(plan) => {
                &&& admitted(cfg@, sanitised(name@), size)
                &&& plan.path@ == target_text(cfg@, sanitised(name@))
                &&& plan.session == (UploadSession { size, chunk, cursor: 0 })
                &&& plan.session@.wf()
                &&& lies_under(cfg@.root, plan.path@)
            },
            Err(e) => !admitted(cfg@, sanitised(name@), size) && e == ErrorKind::BadRequest,
        },
{
    let clean = sanitise(name);
    upload_target(cfg, clean.as_str(), chunk, size)
}

/// Opens a session under the identifier that `bytes` stand for, in place of
/// a session that had the same identifier, and returns the identifier.
pub fn open_session_with(table: &mut SessionTable, bytes: &[u8; 8], session: UploadSession) -> (id: String)
    ensures
        id@ == id_text(bytes@),
        final(table)@ == old(table)@.insert(id@, session),
        within_size(old(table)@) && session@.wf() ==> within_size(final(table)@),
{
    let id = format_id(bytes);
    table.insert(id.clone(), session);
    id
}

/// Opens a session under a fresh random identifier and returns the
/// identifier. Where the random source fails, no session is opened.
pub fn open_session(table: &mut SessionTable, session: UploadSession) -> (r: Result<String, ErrorKind>)
    ensures
        match r {
            Ok(id) => {
                &&& exists|bytes: Seq<u8>| bytes.len() == 8 && id@ == #[trigger] id_text(bytes)
                &&& final(table)@ == old(table)@.insert(id@, session)
            },
            Err(e) => e == ErrorKind::Internal && final(table)@ == old(table)@,
        },
        within_size(old(table)@) && session@.wf() ==> within_size(final(table)@),
{
    match random_bytes() {
        Ok(bytes) => {
            let id = open_session_with(table, &bytes, session);
            assert(bytes@.len() == 8 && id@ == id_text(bytes@));
            Ok(id)
        },
        Err(_) => Err(ErrorKind::Internal),
    }
}

/// What a write request does: unknown where there is no session under
/// `id`, a bad request where the session has reached its size, and else a
/// write of the accepted part of the body at the cursor.
pub open spec fn write_outcome(table: Map<Seq<char>, UploadSession>, id: Seq<char>, body: Seq<u8>) -> Result<
    ChunkWrite,
    ErrorKind,
> {
    if table.contains_key(id) {
        table[id]@.planned(body.len())
    } else {
        Err(ErrorKind::NotFound)
    }
}

/// Decides what a write request with `body` for the session `id` does. The
/// accepted part is the first bytes of the body: all of it, or a chunk, or
/// what is left up to the declared size, whichever is least. The table
/// stays as it is: the cursor moves once the write is reported.
pub fn write_file(table: &SessionTable, id: &str, body: &[u8]) -> (r: Result<ChunkWrite, ErrorKind>)
    ensures
        r == write_outcome(table@, id@, body@),
        r matches Ok(w) ==> {
            &&& w.offset == table@[id@].cursor
            &&& w.len == table@[id@]@.taken(body@.len())
            &&& w.len <= body@.len()
            &&& w.len <= table@[id@].chunk
            &&& w.offset + w.len <= table@[id@].size
            &&& body@.take(w.len as int) == table@[id@]@.part(body@)
        },
{
    match table.get(id) {
        Some(session) => session.plan(body),
        None => Err(ErrorKind::NotFound),
    }
}

/// The session that a report of `written` bytes leaves under `id`: unknown
/// where there is none, the server's failure where the report is of more
/// bytes than one write may add, and else the session with its cursor moved
/// on.
pub open spec fn report_outcome(table: Map<Seq<char>, UploadSession>, id: Seq<char>, written: u64) -> Result<
    UploadSession,
    ErrorKind,
> {
    if !table.contains_key(id) {
        Err(ErrorKind::NotFound)
    } else if written > table[id]@.most() {
        Err(ErrorKind::Internal)
    } else {
        Ok(
            UploadSession {
                size: table[id].size,
                chunk: table[id].chunk,
                cursor: (table[id].cursor + written) as u64,
            },
        )
    }
}

/// Records that `written` more bytes of the session `id` have reached the
/// file, and returns the session as it is then. A report of more bytes than
/// one write may add, which is a chunk or what is left up to the declared
/// size, is refused. The cursor moves forward by `written`, never back and
/// never past the declared size; every other session stays as it is. Where
/// the report is refused, so does the table.
pub fn chunk_written(table: &mut SessionTable, id: &str, written: u64) -> (r: Result<UploadSession, ErrorKind>)
    ensures
        r == report_outcome(old(table)@, id@, written),
        match r {
            Ok(session) => {
                &&& final(table)@ == old(table)@.insert(id@, session)
                &&& session@ == old(table)@[id@]@.advance(written as nat)
                &&& session.cursor == old(table)@[id@].cursor + written
                &&& old(table)@[id@]@.wf() ==> session@.wf()
                &&& session@.wf() || session == old(table)@[id@]
            },
            Err(_) => final(table)@ == old(table)@,
        },
        within_size(old(table)@) ==> within_size(final(table)@),
{
    match table.get(id) {
        Some(session) => match session.advance(written) {
            Some(moved) => {
                table.insert(id.to_owned(), moved);
                Ok(moved)
            },
            None => Err(ErrorKind::Internal),
        },
        None => Err(ErrorKind::NotFound),
    }
}

/// Ends the session `id`: takes it out of the table and returns it as it
/// was. Whether every declared byte was written is not asked. Where there is
/// no such session, the table stays as it is.
pub fn finalize_file(table: &mut SessionTable, id: &str) -> (r: Result<UploadSession, ErrorKind>)
    ensures
        match r {
            Ok(session) => {
                &&& old(table)@.contains_key(id@)
                &&& session == old(table)@[id@]
                &&& final(table)@ == old(table)@.remove(id@)
            },
            Err(e) => {
                &&& !old(table)@.contains_key(id@)
                &&& e == ErrorKind::NotFound
                &&& final(table)@ == old(table)@
            },
        },
        within_size(old(table)@) ==> within_size(final(table)@),
{
    match table.remove(id) {
        Some(session) => Ok(session),
        None => {
            assert(table@ =~= old(table)@);
            Err(ErrorKind::NotFound)
        },
    }
}

} // verus!
