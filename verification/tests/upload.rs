use dirshare::config::Config;
use dirshare::error::ErrorKind;
use dirshare::ident::format_id;
use dirshare::session::{ChunkWrite, UploadSession};
use dirshare::table::SessionTable;
use dirshare::upload::{
    chunk_written, create_file, finalize_file, open_session, open_session_with, upload_target, write_file,
};

fn config(max_file_size: u64) -> Config {
    Config::new("/srv/data", true, false, true, 8080, max_file_size)
}

/// Writes `data` into `file` at `offset`, as a file system would.
fn write_at(file: &mut Vec<u8>, offset: u64, data: &[u8]) {
    let offset = offset as usize;
    if file.len() < offset + data.len() {
        file.resize(offset + data.len(), 0);
    }
    file[offset..offset + data.len()].copy_from_slice(data);
}

/// Serves one write request the way the service does, and returns its status.
fn put(table: &mut SessionTable, file: &mut Vec<u8>, id: &str, body: &[u8]) -> Result<(), ErrorKind> {
    let write = write_file(table, id, body)?;
    write_at(file, write.offset, &body[..write.len]);
    chunk_written(table, id, write.len as u64)?;
    Ok(())
}

#[test]
fn identifiers_are_sixteen_upper_case_hex_digits() {
    assert_eq!(format_id(&[0xAA, 0xBB, 0xCC, 0xDD, 0xEE, 0xFF, 0x00, 0x11]), "AABBCCDDEEFF0011");
    assert_eq!(format_id(&[0, 1, 2, 3, 4, 5, 6, 7]), "0001020304050607");
    assert_eq!(format_id(&[0x9A, 0xF0, 0x0F, 0x10, 0x7E, 0xC3, 0x5D, 0xB8]), "9AF00F107EC35DB8");
}

#[test]
fn different_bytes_give_different_identifiers() {
    let a = format_id(&[1, 2, 3, 4, 5, 6, 7, 8]);
    let b = format_id(&[1, 2, 3, 4, 5, 6, 7, 9]);
    let c = format_id(&[0x10, 2, 3, 4, 5, 6, 7, 8]);
    assert_ne!(a, b);
    assert_ne!(a, c);
}

#[test]
fn a_new_session_starts_at_offset_zero() {
    let s = UploadSession::new(100, 10);
    assert_eq!(s, UploadSession { size: 100, chunk: 10, cursor: 0 });
    assert!(!s.is_complete());
}

#[test]
fn a_session_of_size_zero_is_complete_at_once() {
    let s = UploadSession::new(0, 10);
    assert!(s.is_complete());
    assert_eq!(s.plan(&[1, 2, 3]), Err(ErrorKind::BadRequest));
}

#[test]
fn plan_takes_a_short_body_whole() {
    let s = UploadSession::new(100, 10);
    assert_eq!(s.plan(&[7; 4]), Ok(ChunkWrite { offset: 0, len: 4 }));
    assert_eq!(s.plan(&[7; 10]), Ok(ChunkWrite { offset: 0, len: 10 }));
    assert_eq!(s.plan(&[]), Ok(ChunkWrite { offset: 0, len: 0 }));
}

#[test]
fn plan_cuts_a_long_body_to_the_chunk_size() {
    let s = UploadSession::new(100, 10);
    assert_eq!(s.plan(&[7; 11]), Ok(ChunkWrite { offset: 0, len: 10 }));
    assert_eq!(s.plan(&[7; 110]), Ok(ChunkWrite { offset: 0, len: 10 }));
}

#[test]
fn plan_with_chunk_zero_takes_nothing() {
    let s = UploadSession::new(100, 0);
    assert_eq!(s.plan(&[7; 5]), Ok(ChunkWrite { offset: 0, len: 0 }));
}

#[test]
fn plan_cuts_a_body_to_what_is_left_of_the_size() {
    let s = UploadSession { size: 100, chunk: 10, cursor: 95 };
    assert_eq!(s.plan(&[7; 10]), Ok(ChunkWrite { offset: 95, len: 5 }));
    assert_eq!(s.plan(&[7; 5]), Ok(ChunkWrite { offset: 95, len: 5 }));
    assert_eq!(s.plan(&[7; 3]), Ok(ChunkWrite { offset: 95, len: 3 }));
    let small = UploadSession::new(4, 1024);
    assert_eq!(small.plan(&[7; 10]), Ok(ChunkWrite { offset: 0, len: 4 }));
}

#[test]
fn limit_is_a_chunk_or_what_is_left() {
    assert_eq!(UploadSession::new(100, 10).limit(), 10);
    assert_eq!(UploadSession::new(4, 1024).limit(), 4);
    assert_eq!(UploadSession { size: 100, chunk: 10, cursor: 95 }.limit(), 5);
    assert_eq!(UploadSession { size: 100, chunk: 10, cursor: 100 }.limit(), 0);
    assert_eq!(UploadSession::new(0, 10).limit(), 0);
    assert_eq!(UploadSession::new(100, 0).limit(), 0);
}

#[test]
fn plan_writes_at_the_cursor() {
    let s = UploadSession { size: 100, chunk: 10, cursor: 30 };
    assert_eq!(s.plan(&[7; 5]), Ok(ChunkWrite { offset: 30, len: 5 }));
}

#[test]
fn plan_refuses_once_the_cursor_is_at_the_size() {
    let at_end = UploadSession { size: 100, chunk: 10, cursor: 100 };
    assert_eq!(at_end.plan(&[7; 5]), Err(ErrorKind::BadRequest));
    let past_end = UploadSession { size: 100, chunk: 10, cursor: 104 };
    assert_eq!(past_end.plan(&[7; 5]), Err(ErrorKind::BadRequest));
    let before_end = UploadSession { size: 100, chunk: 10, cursor: 99 };
    assert_eq!(before_end.plan(&[7; 5]), Ok(ChunkWrite { offset: 99, len: 1 }));
}

#[test]
fn advance_moves_the_cursor_forward() {
    let s = UploadSession { size: 100, chunk: 10, cursor: 30 };
    assert_eq!(s.advance(10), Some(UploadSession { size: 100, chunk: 10, cursor: 40 }));
    assert_eq!(s.advance(0), Some(s));
}

#[test]
fn advance_refuses_more_than_one_write_may_add() {
    let s = UploadSession { size: 100, chunk: 10, cursor: 30 };
    assert_eq!(s.advance(11), None);
    let near_end = UploadSession { size: 100, chunk: 10, cursor: 97 };
    assert_eq!(near_end.advance(3).map(|s| s.cursor), Some(100));
    assert_eq!(near_end.advance(4), None);
    let at_end = UploadSession { size: 100, chunk: 10, cursor: 100 };
    assert_eq!(at_end.advance(0), Some(at_end));
    assert_eq!(at_end.advance(1), None);
}

#[test]
fn advance_at_the_largest_size_does_not_overflow() {
    let s = UploadSession { size: u64::MAX, chunk: 10, cursor: u64::MAX - 3 };
    assert_eq!(s.advance(3).map(|s| s.cursor), Some(u64::MAX));
    assert_eq!(s.advance(4), None);
}

#[test]
fn table_insert_get_remove() {
    let mut table = SessionTable::new();
    let s = UploadSession::new(10, 5);
    assert!(!table.contains("A"));
    assert_eq!(table.get("A"), None);
    table.insert("A".to_string(), s);
    assert!(table.contains("A"));
    assert_eq!(table.get("A"), Some(s));
    assert!(!table.contains("B"));
    assert_eq!(table.remove("B"), None);
    assert!(table.contains("A"));
    assert_eq!(table.remove("A"), Some(s));
    assert!(!table.contains("A"));
    assert_eq!(table.remove("A"), None);
}

#[test]
fn table_insert_replaces_a_session_with_the_same_identifier() {
    let mut table = SessionTable::new();
    table.insert("A".to_string(), UploadSession::new(10, 5));
    table.insert("B".to_string(), UploadSession::new(20, 5));
    table.insert("A".to_string(), UploadSession::new(30, 5));
    assert_eq!(table.get("A"), Some(UploadSession::new(30, 5)));
    assert_eq!(table.get("B"), Some(UploadSession::new(20, 5)));
}

#[test]
fn create_sanitises_a_name_with_separators() {
    let plan = create_file(&config(u64::MAX), "../etc/passwd", 1024, 4).unwrap();
    assert_eq!(plan.path, "/srv/data/.etc_passwd");
    assert!(plan.path.starts_with("/srv/data/"));
    let name = &plan.path["/srv/data/".len()..];
    assert!(!name.is_empty());
    assert!(!name.contains('/'));
    assert!(name != "." && name != "..");
    assert!(name.ends_with("etc_passwd"));
    assert_eq!(plan.session, UploadSession { size: 4, chunk: 1024, cursor: 0 });
}

#[test]
fn create_gives_a_name_to_what_has_none() {
    assert_eq!(create_file(&config(u64::MAX), "", 1, 1).map(|p| p.path), Ok("/srv/data/_".to_string()));
    assert_eq!(create_file(&config(u64::MAX), "..", 1, 1).map(|p| p.path), Ok("/srv/data/_".to_string()));
    assert_eq!(create_file(&config(u64::MAX), "///", 1, 1).map(|p| p.path), Ok("/srv/data/_".to_string()));
}

#[test]
fn create_keeps_a_plain_name() {
    let plan = create_file(&config(u64::MAX), "report.pdf", 4096, 10_000).unwrap();
    assert_eq!(plan.path, "/srv/data/report.pdf");
    assert_eq!(plan.session, UploadSession { size: 10_000, chunk: 4096, cursor: 0 });
}

#[test]
fn create_replaces_a_separator_inside_a_name() {
    let plan = create_file(&config(u64::MAX), "a/b.txt", 1, 1).unwrap();
    assert_eq!(plan.path, "/srv/data/a_b.txt");
}

#[test]
fn create_refuses_a_size_over_the_limit() {
    let cfg = config(1000);
    assert_eq!(create_file(&cfg, "a.bin", 10, 1001).err(), Some(ErrorKind::BadRequest));
    assert!(create_file(&cfg, "a.bin", 10, 1000).is_ok());
    assert!(create_file(&cfg, "a.bin", 10, 0).is_ok());
}

#[test]
fn create_without_a_limit_takes_any_size() {
    assert!(create_file(&config(u64::MAX), "a.bin", 10, u64::MAX).is_ok());
}

#[test]
fn upload_target_refuses_what_is_no_name() {
    let cfg = config(u64::MAX);
    assert_eq!(upload_target(&cfg, "", 1, 1).err(), Some(ErrorKind::BadRequest));
    assert_eq!(upload_target(&cfg, ".", 1, 1).err(), Some(ErrorKind::BadRequest));
    assert_eq!(upload_target(&cfg, "..", 1, 1).err(), Some(ErrorKind::BadRequest));
    assert_eq!(upload_target(&cfg, "a/b", 1, 1).err(), Some(ErrorKind::BadRequest));
    assert_eq!(upload_target(&cfg, "../x", 1, 1).err(), Some(ErrorKind::BadRequest));
}

#[test]
fn upload_target_places_the_name_in_the_root() {
    let plan = upload_target(&config(10), "x.bin", 3, 10).unwrap();
    assert_eq!(plan.path, "/srv/data/x.bin");
    assert_eq!(plan.session, UploadSession { size: 10, chunk: 3, cursor: 0 });
    assert_eq!(upload_target(&config(10), "x.bin", 3, 11).err(), Some(ErrorKind::BadRequest));
}

#[test]
fn open_session_with_uses_the_given_bytes() {
    let mut table = SessionTable::new();
    let s = UploadSession::new(10, 5);
    let id = open_session_with(&mut table, &[0xAA, 0xBB, 0xCC, 0xDD, 0xEE, 0xFF, 0x00, 0x11], s);
    assert_eq!(id, "AABBCCDDEEFF0011");
    assert_eq!(table.get("AABBCCDDEEFF0011"), Some(s));
}

#[test]
fn open_session_returns_a_well_formed_identifier() {
    let mut table = SessionTable::new();
    let s = UploadSession::new(10, 5);
    let id = open_session(&mut table, s).unwrap();
    assert_eq!(id.len(), 16);
    assert!(id.chars().all(|c| c.is_ascii_digit() || ('A'..='F').contains(&c)));
    assert_eq!(table.get(&id), Some(s));
}

#[test]
fn open_session_gives_each_session_its_own_identifier() {
    let mut table = SessionTable::new();
    let a = open_session(&mut table, UploadSession::new(1, 1)).unwrap();
    let b = open_session(&mut table, UploadSession::new(2, 1)).unwrap();
    assert_ne!(a, b);
    assert_eq!(table.get(&a), Some(UploadSession::new(1, 1)));
    assert_eq!(table.get(&b), Some(UploadSession::new(2, 1)));
}

#[test]
fn write_to_an_unknown_session_is_not_found() {
    let mut table = SessionTable::new();
    assert_eq!(write_file(&table, "AABBCCDDEEFF0011", &[1, 2, 3]), Err(ErrorKind::NotFound));
    assert_eq!(chunk_written(&mut table, "AABBCCDDEEFF0011", 3), Err(ErrorKind::NotFound));
}

#[test]
fn write_of_a_long_body_adds_exactly_one_chunk() {
    let mut table = SessionTable::new();
    let chunk = 16u64;
    let id = open_session(&mut table, UploadSession::new(1000, chunk)).unwrap();
    let body: Vec<u8> = (0..chunk as usize + 100).map(|i| i as u8).collect();
    let mut file = vec![0u8; 1000];
    let write = write_file(&table, &id, &body).unwrap();
    assert_eq!(write, ChunkWrite { offset: 0, len: 16 });
    write_at(&mut file, write.offset, &body[..write.len]);
    let after = chunk_written(&mut table, &id, write.len as u64).unwrap();
    assert_eq!(after.cursor, chunk);
    assert_eq!(table.get(&id).map(|s| s.cursor), Some(chunk));
    assert_eq!(&file[..16], &body[..16]);
    assert!(file[16..].iter().all(|b| *b == 0));
}

#[test]
fn write_does_not_move_the_cursor_before_the_report() {
    let mut table = SessionTable::new();
    let id = open_session(&mut table, UploadSession::new(100, 10)).unwrap();
    assert_eq!(write_file(&table, &id, &[1; 10]), Ok(ChunkWrite { offset: 0, len: 10 }));
    assert_eq!(write_file(&table, &id, &[1; 10]), Ok(ChunkWrite { offset: 0, len: 10 }));
    assert_eq!(table.get(&id).map(|s| s.cursor), Some(0));
}

#[test]
fn a_short_report_leaves_the_cursor_at_what_was_written() {
    let mut table = SessionTable::new();
    let id = open_session(&mut table, UploadSession::new(100, 10)).unwrap();
    assert_eq!(chunk_written(&mut table, &id, 4).map(|s| s.cursor), Ok(4));
    assert_eq!(write_file(&table, &id, &[1; 10]), Ok(ChunkWrite { offset: 4, len: 10 }));
}

#[test]
fn a_report_of_more_than_one_write_may_add_changes_nothing() {
    let mut table = SessionTable::new();
    let s = UploadSession::new(4, 2);
    table.insert("A".to_string(), s);
    assert_eq!(chunk_written(&mut table, "A", 1000), Err(ErrorKind::Internal));
    assert_eq!(chunk_written(&mut table, "A", 3), Err(ErrorKind::Internal));
    assert_eq!(table.get("A"), Some(s));
    assert_eq!(chunk_written(&mut table, "A", 2).map(|s| s.cursor), Ok(2));
    assert_eq!(chunk_written(&mut table, "A", 2).map(|s| s.cursor), Ok(4));
    assert_eq!(chunk_written(&mut table, "A", 1), Err(ErrorKind::Internal));
    assert_eq!(table.get("A").map(|s| s.cursor), Some(4));
}

#[test]
fn a_report_at_the_largest_size_does_not_overflow() {
    let mut table = SessionTable::new();
    let s = UploadSession { size: u64::MAX, chunk: 10, cursor: u64::MAX - 1 };
    table.insert("A".to_string(), s);
    assert_eq!(chunk_written(&mut table, "A", 2), Err(ErrorKind::Internal));
    assert_eq!(table.get("A"), Some(s));
    assert_eq!(chunk_written(&mut table, "A", 1).map(|s| s.cursor), Ok(u64::MAX));
}

#[test]
fn write_after_the_last_byte_is_a_bad_request() {
    let mut table = SessionTable::new();
    let mut file = vec![0u8; 8];
    let id = open_session(&mut table, UploadSession::new(8, 8)).unwrap();
    assert_eq!(put(&mut table, &mut file, &id, &[9; 8]), Ok(()));
    assert_eq!(write_file(&table, &id, &[9; 1]), Err(ErrorKind::BadRequest));
    assert_eq!(put(&mut table, &mut file, &id, &[9; 1]), Err(ErrorKind::BadRequest));
    assert_eq!(table.get(&id).map(|s| s.cursor), Some(8));
}

#[test]
fn a_write_never_runs_past_the_declared_size() {
    let mut table = SessionTable::new();
    let mut file = vec![0u8; 4];
    let id = open_session(&mut table, UploadSession::new(4, 1024)).unwrap();
    assert_eq!(write_file(&table, &id, &[5; 10]), Ok(ChunkWrite { offset: 0, len: 4 }));
    assert_eq!(put(&mut table, &mut file, &id, &[5; 10]), Ok(()));
    assert_eq!(table.get(&id).map(|s| s.cursor), Some(4));
    assert_eq!(file, vec![5u8; 4]);
    assert_eq!(write_file(&table, &id, &[5; 1]), Err(ErrorKind::BadRequest));
}

#[test]
fn the_last_chunk_is_cut_to_what_is_left() {
    let mut table = SessionTable::new();
    let mut file = vec![0u8; 10];
    let id = open_session(&mut table, UploadSession::new(10, 4)).unwrap();
    let mut cursors = Vec::new();
    for body in [[1u8; 4], [2u8; 4], [3u8; 4]] {
        assert_eq!(put(&mut table, &mut file, &id, &body), Ok(()));
        cursors.push(table.get(&id).unwrap().cursor);
    }
    assert_eq!(cursors, vec![4, 8, 10]);
    assert_eq!(file, vec![1, 1, 1, 1, 2, 2, 2, 2, 3, 3]);
    assert_eq!(put(&mut table, &mut file, &id, &[4u8; 4]), Err(ErrorKind::BadRequest));
    assert_eq!(file.len(), 10);
}

#[test]
fn writes_land_one_after_the_other() {
    let mut table = SessionTable::new();
    let mut file = vec![0u8; 20];
    let id = open_session(&mut table, UploadSession::new(20, 6)).unwrap();
    let bodies: [&[u8]; 4] = [&[1, 2, 3], &[4, 5, 6, 7, 8, 9, 10, 11], &[], &[12, 13]];
    let mut cursors = Vec::new();
    for body in bodies {
        assert_eq!(put(&mut table, &mut file, &id, body), Ok(()));
        cursors.push(table.get(&id).unwrap().cursor);
    }
    assert_eq!(cursors, vec![3, 9, 9, 11]);
    assert_eq!(&file[..11], &[1, 2, 3, 4, 5, 6, 7, 8, 9, 12, 13]);
    assert!(file[11..].iter().all(|b| *b == 0));
}

#[test]
fn the_cursor_never_moves_back_and_stays_within_the_size() {
    let mut table = SessionTable::new();
    let mut file = vec![0u8; 10];
    let id = open_session(&mut table, UploadSession::new(10, 4)).unwrap();
    let mut last = 0;
    for _ in 0..5 {
        let _ = put(&mut table, &mut file, &id, &[1, 2, 3]);
        let now = table.get(&id).unwrap().cursor;
        assert!(now >= last);
        assert!(now <= 10);
        last = now;
    }
    assert_eq!(last, 10);
    assert_eq!(file.len(), 10);
    assert_eq!(put(&mut table, &mut file, &id, &[1, 2]), Err(ErrorKind::BadRequest));
    assert_eq!(table.get(&id).unwrap().cursor, 10);
}

#[test]
fn an_upload_sent_in_chunks_arrives_whole() {
    let cfg = config(u64::MAX);
    let payload: Vec<u8> = (0..1000u32).map(|i| (i * 7 % 251) as u8).collect();
    let chunk = 64usize;
    let plan = create_file(&cfg, "payload.bin", chunk as u64, payload.len() as u64).unwrap();
    assert_eq!(plan.path, "/srv/data/payload.bin");
    let mut file = vec![0u8; payload.len()];
    let mut table = SessionTable::new();
    let id = open_session(&mut table, plan.session).unwrap();
    let mut requests = 0;
    for piece in payload.chunks(chunk) {
        assert_eq!(put(&mut table, &mut file, &id, piece), Ok(()));
        requests += 1;
    }
    assert_eq!(requests, (payload.len() + chunk - 1) / chunk);
    let last = finalize_file(&mut table, &id).unwrap();
    assert_eq!(last.cursor, payload.len() as u64);
    assert_eq!(file, payload);
    assert!(!table.contains(&id));
}

#[test]
fn sessions_do_not_touch_each_other() {
    let mut table = SessionTable::new();
    let a = open_session(&mut table, UploadSession::new(10, 5)).unwrap();
    let b = open_session(&mut table, UploadSession::new(20, 7)).unwrap();
    assert_eq!(chunk_written(&mut table, &a, 5).map(|s| s.cursor), Ok(5));
    assert_eq!(table.get(&b), Some(UploadSession::new(20, 7)));
    assert_eq!(finalize_file(&mut table, &a).map(|s| s.cursor), Ok(5));
    assert_eq!(table.get(&b), Some(UploadSession::new(20, 7)));
    assert_eq!(write_file(&table, &b, &[0; 9]), Ok(ChunkWrite { offset: 0, len: 7 }));
}

#[test]
fn finalize_removes_the_session() {
    let mut table = SessionTable::new();
    let id = open_session(&mut table, UploadSession::new(10, 5)).unwrap();
    assert_eq!(finalize_file(&mut table, &id), Ok(UploadSession::new(10, 5)));
    assert!(!table.contains(&id));
    assert_eq!(write_file(&table, &id, &[1]), Err(ErrorKind::NotFound));
}

#[test]
fn finalize_takes_a_short_upload() {
    let mut table = SessionTable::new();
    let id = open_session(&mut table, UploadSession::new(10, 5)).unwrap();
    chunk_written(&mut table, &id, 3).unwrap();
    assert_eq!(finalize_file(&mut table, &id).map(|s| s.cursor), Ok(3));
}

#[test]
fn finalize_of_an_unknown_session_is_not_found() {
    let mut table = SessionTable::new();
    let id = open_session(&mut table, UploadSession::new(10, 5)).unwrap();
    assert_eq!(finalize_file(&mut table, "AABBCCDDEEFF0011"), Err(ErrorKind::NotFound));
    assert!(table.contains(&id));
    assert!(finalize_file(&mut table, &id).is_ok());
    assert_eq!(finalize_file(&mut table, &id), Err(ErrorKind::NotFound));
}
