use ava_admin::files::catalog::{list_window, lowered_extension, normalized_extension, page_window, safe_extension, FileListQuery};
use ava_admin::files::upload::{
    check_assembled, check_chunk_size, check_part_read, check_upload_size, grown_size,
    is_servable_object_name, new_id, new_object_name, next_part_offset, object_content_type,
    object_name_with, refused_chunk, refused_completion, upload_part, upload_parts_prefix,
    CompletionClaim, FileError, MAX_UPLOAD_BYTES, UPLOAD_CHUNK_BYTES,
};
use ava_admin::files::completion::{completion_step, CompletionNext, CompletionOutcome, CompletionPhase, CompletionUndo};

#[test]
fn extension_is_normalized_without_query_or_fragment() {
    assert_eq!(safe_extension("report.PDF?download=1"), "pdf");
    assert_eq!(safe_extension("archive.tar.gz#latest"), "gz");
    assert_eq!(safe_extension("README"), "");
    assert_eq!(safe_extension("unsafe.bad/ext"), "");
}

#[test]
fn unsafe_extensions_are_dropped() {
    assert_eq!(normalized_extension("a.TOOLONGEXTENSIONNAME"), "toolongextensionname");
    assert_eq!(safe_extension("a.TOOLONGEXTENSIONNAME"), "");
    assert_eq!(safe_extension("a.p-d"), "");
    assert_eq!(safe_extension("a.tar.GZ"), "gz");
}

#[test]
fn list_windows_start_at_page_one() {
    let query = |page, page_size| FileListQuery { page, page_size, keyword: None, category: None };
    assert_eq!(list_window(&query(0, 0)), (1, 1, 0));
    assert_eq!(list_window(&query(3, 20)), (3, 20, 40));
    assert_eq!(list_window(&query(-5, 10)), (1, 10, 0));
}

#[test]
fn upload_parts_are_zero_padded_by_offset() {
    assert_eq!(
        upload_part("abc", 4194304, "tok"),
        ".uploads/abc/00000000000004194304-tok"
    );
    assert_eq!(upload_part("abc", 0, "t"), ".uploads/abc/00000000000000000000-t");
    assert_eq!(upload_part("abc", -5, "t"), ".uploads/abc/-0000000000000000005-t");
    assert_eq!(upload_parts_prefix("abc"), ".uploads/abc/");
}

#[test]
fn object_names_keep_the_extension() {
    assert_eq!(object_name_with("id", "pdf"), "id.pdf");
    assert_eq!(object_name_with("id", ""), "id");
    let name = new_object_name("png");
    assert_eq!(name.len(), 36 + 4);
    assert!(name.ends_with(".png"));
    let id = new_id();
    assert_eq!(id.len(), 36);
    assert_ne!(new_id(), id);
}

#[test]
fn upload_sizes_are_limited() {
    assert!(check_upload_size(0).is_ok());
    assert!(check_upload_size(MAX_UPLOAD_BYTES as i64).is_ok());
    assert!(matches!(check_upload_size(MAX_UPLOAD_BYTES as i64 + 1), Err(FileError::TooLarge)));
    assert!(matches!(check_upload_size(-1), Err(FileError::TooLarge)));
    assert!(check_chunk_size(1).is_ok());
    assert!(check_chunk_size(UPLOAD_CHUNK_BYTES).is_ok());
    assert!(matches!(check_chunk_size(0), Err(FileError::OffsetMismatch)));
    assert!(matches!(check_chunk_size(UPLOAD_CHUNK_BYTES + 1), Err(FileError::OffsetMismatch)));
    assert_eq!(grown_size(10, 5).ok(), Some(15));
    assert!(matches!(grown_size(MAX_UPLOAD_BYTES, 1), Err(FileError::TooLarge)));
    assert!(matches!(grown_size(usize::MAX, 1), Err(FileError::TooLarge)));
}

#[test]
fn parts_must_tile_the_upload() {
    assert_eq!(next_part_offset(0, 0, 10, 20).ok(), Some(10));
    assert_eq!(next_part_offset(10, 10, 10, 20).ok(), Some(20));
    assert!(matches!(next_part_offset(10, 0, 10, 20), Err(FileError::UploadCorrupt)));
    assert!(matches!(next_part_offset(10, 10, 11, 20), Err(FileError::UploadCorrupt)));
    assert!(matches!(next_part_offset(0, 0, 0, 20), Err(FileError::UploadCorrupt)));
    assert!(matches!(
        next_part_offset(0, 0, UPLOAD_CHUNK_BYTES as i64 + 1, i64::MAX),
        Err(FileError::UploadCorrupt)
    ));
    assert!(check_part_read(10, 10).is_ok());
    assert!(matches!(check_part_read(9, 10), Err(FileError::UploadCorrupt)));
    assert!(check_assembled(20, 20).is_ok());
    assert!(matches!(check_assembled(10, 20), Err(FileError::UploadCorrupt)));
}

#[test]
fn refused_requests_are_answered_by_state() {
    assert!(matches!(refused_chunk(true, false), FileError::OffsetMismatch));
    assert!(matches!(refused_chunk(false, true), FileError::OffsetMismatch));
    assert!(matches!(refused_chunk(false, false), FileError::UploadNotFound));
    assert!(matches!(refused_completion(5, 10, "uploading"), FileError::UploadIncomplete));
    assert!(matches!(refused_completion(10, 10, "writing"), FileError::UploadInProgress));
    assert!(matches!(refused_completion(10, 10, "completing"), FileError::UploadInProgress));
    assert!(matches!(refused_completion(10, 10, "uploading"), FileError::UploadCorrupt));
}

#[test]
fn only_plain_object_names_are_served() {
    assert!(is_servable_object_name("a.pdf"));
    assert!(!is_servable_object_name(""));
    assert!(!is_servable_object_name("a/b"));
    assert!(!is_servable_object_name("a..b"));
    assert!(is_servable_object_name("a.b.c"));
}

#[test]
fn content_types_follow_the_extension() {
    assert_eq!(object_content_type("preview.png"), "image/png");
    assert_eq!(object_content_type("blob"), "application/octet-stream");
}

#[test]
fn completion_claims_split_into_session_and_previous_name() {
    let claim = CompletionClaim {
        id: "u".to_string(),
        storage_id: 3,
        name: "report.pdf".to_string(),
        object_name: "new.pdf".to_string(),
        ext: "pdf".to_string(),
        tag: String::new(),
        category: "docs".to_string(),
        total_size: 10,
        uploaded_size: 10,
        previous_object_name: "old.pdf".to_string(),
    };
    let (session, previous) = claim.into_parts();
    assert_eq!(session.id, "u");
    assert_eq!(session.object_name, "new.pdf");
    assert_eq!(session.total_size, 10);
    assert_eq!(previous, "old.pdf");
}

#[test]
fn parts_stay_in_their_directory_and_are_never_served() {
    let part = upload_part("u1", 4194304, "t");
    assert!(part.starts_with(&upload_parts_prefix("u1")));
    assert!(!is_servable_object_name(&part));
}

#[test]
fn new_object_names_can_be_served() {
    assert!(is_servable_object_name(&new_object_name("pdf")));
    assert!(is_servable_object_name(&new_object_name("")));
    assert!(is_servable_object_name(&object_name_with(&new_id(), &safe_extension("x.tar.gz"))));
}

#[test]
fn list_windows_report_an_offset_that_does_not_fit() {
    assert_eq!(page_window(0, 0), Some((1, 1, 0)));
    assert_eq!(page_window(3, 20), Some((3, 20, 40)));
    assert_eq!(page_window(i64::MAX, 2), None);
}

#[test]
fn ids_are_version_four_uuids() {
    let id: Vec<char> = new_id().chars().collect();
    assert_eq!(id.len(), 36);
    for i in [8, 13, 18, 23] {
        assert_eq!(id[i], '-');
    }
    assert_eq!(id[14], '4');
    assert!(matches!(id[19], '8' | '9' | 'a' | 'b'));
}

#[test]
fn extensions_are_filed_in_lower_case() {
    assert_eq!(lowered_extension(Some("PDF")), "pdf");
    assert_eq!(lowered_extension(None), "");
}

#[test]
fn an_earlier_completion_is_answered_with_its_parts_cleaned() {
    let (undo, next) = completion_step(CompletionPhase::FirstLook, CompletionOutcome::Yes);
    assert_eq!(
        undo,
        CompletionUndo { release_claim: false, rollback: false, remove_object: false, abandon_claim: false }
    );
    assert!(matches!(next, CompletionNext::ReturnCompleted { clean_parts: true }));
    let (_, next) = completion_step(CompletionPhase::LostClaimLook, CompletionOutcome::Yes);
    assert!(matches!(next, CompletionNext::ReturnCompleted { clean_parts: false }));
}

#[test]
fn a_lost_claim_removes_the_written_object() {
    let (undo, next) = completion_step(CompletionPhase::Confirm, CompletionOutcome::No);
    assert_eq!(
        undo,
        CompletionUndo { release_claim: false, rollback: true, remove_object: true, abandon_claim: true }
    );
    assert!(matches!(next, CompletionNext::Do(CompletionPhase::LostClaimLook)));
    let (_, next) = completion_step(CompletionPhase::LostClaimLook, CompletionOutcome::No);
    assert!(matches!(next, CompletionNext::Refuse(FileError::UploadInProgress)));
}

#[test]
fn a_completion_walks_through_to_the_recorded_file() {
    let mut phase = CompletionPhase::FirstLook;
    let outcomes = [
        CompletionOutcome::No,
        CompletionOutcome::Yes,
        CompletionOutcome::Yes,
        CompletionOutcome::Yes,
        CompletionOutcome::Yes,
        CompletionOutcome::Yes,
        CompletionOutcome::Yes,
        CompletionOutcome::Yes,
        CompletionOutcome::Yes,
        CompletionOutcome::Yes,
    ];
    let mut seen = Vec::new();
    for outcome in outcomes {
        seen.push(phase);
        let (undo, next) = completion_step(phase, outcome);
        assert!(!undo.remove_object && !undo.rollback);
        match next {
            CompletionNext::Do(following) => phase = following,
            CompletionNext::ReturnRecorded => {
                assert_eq!(phase, CompletionPhase::Commit);
                break;
            }
            other => panic!("unexpected step {:?}", other),
        }
    }
    assert_eq!(seen.len(), 10);
    assert_eq!(seen[4], CompletionPhase::Lock);
}

#[test]
fn a_busy_lock_refuses_the_completion() {
    let (_, next) = completion_step(CompletionPhase::Lock, CompletionOutcome::Conflict);
    assert!(matches!(next, CompletionNext::Refuse(FileError::UploadInProgress)));
    let (undo, next) = completion_step(CompletionPhase::Storage, CompletionOutcome::Failed);
    assert!(undo.release_claim);
    assert!(matches!(next, CompletionNext::Fail));
}
