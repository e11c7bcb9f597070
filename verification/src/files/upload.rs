//! Resumable uploads: size limits, the names of parts and objects, the checks
//! that assemble parts into one object, and how a refused request is answered.
use vstd::prelude::*;

use crate::storages::error::StorageError;
use crate::text::{chars_of, concat_chars, contains_char, nat_digits, string_of, u64_digits};

verus! {

/// The largest file that can be uploaded: 1 GiB.
pub const MAX_UPLOAD_BYTES: usize = 1073741824;

/// The largest chunk of one write: 4 MiB.
pub const UPLOAD_CHUNK_BYTES: usize = 4194304;

/// How long an idle upload session or a claimed operation stays valid.
pub const UPLOAD_SESSION_TTL_SECONDS: i64 = 3600;

/// Why a file operation was refused.
#[derive(Debug)]
pub enum FileError {
    TooLarge,
    UploadNotFound,
    OffsetMismatch,
    UploadIncomplete,
    UploadInProgress,
    UploadCorrupt,
    Storage(StorageError),
}

/// A request to start an upload.
#[derive(Debug, Clone)]
pub struct StartUpload {
    pub name: String,
    pub tag: String,
    pub category: String,
    pub size: i64,
}

/// An upload in progress.
#[derive(Debug, Clone)]
pub struct UploadSession {
    pub id: String,
    pub storage_id: i64,
    pub name: String,
    pub object_name: String,
    pub ext: String,
    pub tag: String,
    pub category: String,
    pub total_size: i64,
    pub uploaded_size: i64,
}

/// A session claimed for completion, with the object name it had before.
#[derive(Debug, Clone)]
pub struct CompletionClaim {
    pub id: String,
    pub storage_id: i64,
    pub name: String,
    pub object_name: String,
    pub ext: String,
    pub tag: String,
    pub category: String,
    pub total_size: i64,
    pub uploaded_size: i64,
    pub previous_object_name: String,
}

impl CompletionClaim {
    /// The claimed session, and the object name it had before the claim.
    pub fn into_parts(self) -> (r: (UploadSession, String))
        ensures
            r.0.id == self.id,
            r.0.storage_id == self.storage_id,
            r.0.name == self.name,
            r.0.object_name == self.object_name,
            r.0.ext == self.ext,
            r.0.tag == self.tag,
            r.0.category == self.category,
            r.0.total_size == self.total_size,
            r.0.uploaded_size == self.uploaded_size,
            r.1 == self.previous_object_name,
    {
        let previous_object_name = self.previous_object_name;
        (
            UploadSession {
                id: self.id,
                storage_id: self.storage_id,
                name: self.name,
                object_name: self.object_name,
                ext: self.ext,
                tag: self.tag,
                category: self.category,
                total_size: self.total_size,
                uploaded_size: self.uploaded_size,
            },
            previous_object_name,
        )
    }
}

/// An upload may start only with a size from zero to the limit.
pub fn check_upload_size(size: i64) -> (r: Result<(), FileError>)
    ensures
        r is Ok <==> 0 <= size <= MAX_UPLOAD_BYTES,
        r is Err ==> r matches Err(FileError::TooLarge),
{
    if size < 0 || size > 1073741824 {
        Err(FileError::TooLarge)
    } else {
        Ok(())
    }
}

/// A written chunk must hold 1 byte to 4 MiB.
pub fn check_chunk_size(len: usize) -> (r: Result<(), FileError>)
    ensures
        r is Ok <==> 0 < len <= UPLOAD_CHUNK_BYTES,
        r is Err ==> r matches Err(FileError::OffsetMismatch),
{
    if len == 0 || len > UPLOAD_CHUNK_BYTES {
        Err(FileError::OffsetMismatch)
    } else {
        Ok(())
    }
}

/// How a refused chunk write is answered: an upload that is already complete
/// or a live session at another offset is an offset mismatch; otherwise the
/// upload is not found.
pub fn refused_chunk(completed: bool, session_alive: bool) -> (r: FileError)
    ensures
        (completed || session_alive) ==> r matches FileError::OffsetMismatch,
        !(completed || session_alive) ==> r matches FileError::UploadNotFound,
{
    if completed || session_alive {
        FileError::OffsetMismatch
    } else {
        FileError::UploadNotFound
    }
}

/// How a refused completion is answered, from the live session's sizes and
/// state: missing bytes make it incomplete, a running write or completion
/// makes it in progress, anything else is corrupt.
pub fn refused_completion(uploaded_size: i64, total_size: i64, state: &str) -> (r: FileError)
    ensures
        uploaded_size != total_size ==> r matches FileError::UploadIncomplete,
        uploaded_size == total_size && (state@ == "completing"@ || state@ == "writing"@) ==> r matches FileError::UploadInProgress,
        uploaded_size == total_size && !(state@ == "completing"@ || state@ == "writing"@) ==> r matches FileError::UploadCorrupt,
{
    if uploaded_size != total_size {
        FileError::UploadIncomplete
    } else if crate::text::str_eq(state, "completing") || crate::text::str_eq(state, "writing") {
        FileError::UploadInProgress
    } else {
        FileError::UploadCorrupt
    }
}

/// `n` written with leading zeros to `width` characters.
pub open spec fn zero_padded(digits: Seq<char>, width: nat) -> Seq<char> {
    if digits.len() < width {
        Seq::new((width - digits.len()) as nat, |i: int| '0') + digits
    } else {
        digits
    }
}

/// An offset written as `{:020}` writes it: sign included, 20 characters,
/// padded with zeros after the sign.
pub open spec fn padded_offset(n: int) -> Seq<char> {
    if n < 0 {
        seq!['-'] + zero_padded(nat_digits((-n) as nat), 19)
    } else {
        zero_padded(nat_digits(n as nat), 20)
    }
}

fn zero_pad(digits: Vec<char>, width: usize) -> (r: Vec<char>)
    ensures
        r@ == zero_padded(digits@, width as nat),
{
    if digits.len() >= width {
        return digits;
    }
    let mut r: Vec<char> = Vec::new();
    let pad = width - digits.len();
    let mut i: usize = 0;
    while i < pad
        invariant
            i <= pad,
            pad == width - digits@.len(),
            r@ =~= Seq::new(i as nat, |k: int| '0'),
        decreases pad - i,
    {
        r.push('0');
        i += 1;
    }
    let out = concat_chars(&r, &digits);
    assert(out@ =~= zero_padded(digits@, width as nat));
    out
}

fn padded_offset_exec(n: i64) -> (r: Vec<char>)
    ensures
        r@ == padded_offset(n as int),
{
    if n < 0 {
        let magnitude: u64 = (0i128 - (n as i128)) as u64;
        let digits = u64_digits(magnitude);
        let minus: Vec<char> = vec!['-'];
        let padded = zero_pad(digits, 19);
        let out = concat_chars(&minus, &padded);
        assert(minus@ =~= seq!['-']);
        out
    } else {
        zero_pad(u64_digits(n as u64), 20)
    }
}

/// The object that holds the chunk of upload `id` written at `offset` under
/// claim `token`.
pub open spec fn upload_part_spec(id: Seq<char>, offset: int, token: Seq<char>) -> Seq<char> {
    ".uploads/"@ + id + seq!['/'] + padded_offset(offset) + seq!['-'] + token
}

/// The object name of a chunk of an upload.
pub fn upload_part(id: &str, offset: i64, token: &str) -> (r: String)
    ensures
        r@ == upload_part_spec(id@, offset as int, token@),
{
    let prefix = chars_of(".uploads/");
    let slash: Vec<char> = vec!['/'];
    let dash: Vec<char> = vec!['-'];
    let a = concat_chars(&prefix, &chars_of(id));
    let b = concat_chars(&a, &slash);
    let c = concat_chars(&b, &padded_offset_exec(offset));
    let d = concat_chars(&c, &dash);
    let e = concat_chars(&d, &chars_of(token));
    assert(slash@ =~= seq!['/']);
    assert(dash@ =~= seq!['-']);
    string_of(&e)
}

/// The directory of the parts of upload `id`.
pub open spec fn upload_parts_prefix_spec(id: Seq<char>) -> Seq<char> {
    ".uploads/"@ + id + seq!['/']
}

/// The directory that holds the chunks of an upload.
pub fn upload_parts_prefix(id: &str) -> (r: String)
    ensures
        r@ == upload_parts_prefix_spec(id@),
{
    let prefix = chars_of(".uploads/");
    let slash: Vec<char> = vec!['/'];
    assert(slash@ =~= seq!['/']);
    string_of(&concat_chars(&concat_chars(&prefix, &chars_of(id)), &slash))
}

/// Every part of an upload lies in the upload's parts directory, so that
/// removing the directory removes every part; and no part is ever served as
/// a local object.
pub proof fn lemma_parts_stay_in_their_directory(id: Seq<char>, offset: int, token: Seq<char>)
    ensures
        crate::text::has_prefix(upload_part_spec(id, offset, token), upload_parts_prefix_spec(id)),
        !servable_object_name(upload_part_spec(id, offset, token)),
{
    let dir = upload_parts_prefix_spec(id);
    let part = upload_part_spec(id, offset, token);
    let rest = padded_offset(offset) + seq!['-'] + token;
    assert(part =~= dir + rest);
    assert(part.subrange(0, dir.len() as int) =~= dir);
    assert(dir[dir.len() - 1] == '/');
    assert(part[dir.len() - 1] == '/');
}

/// The object names that uploads are stored under can be served back: a
/// UUID, with a safe extension or none, is a servable name.
pub proof fn lemma_new_object_names_are_servable(u: Seq<char>, ext: Seq<char>)
    requires
        uuid_text(u),
        crate::files::catalog::is_safe_extension(ext),
    ensures
        servable_object_name(object_name_spec(u, ext)),
{
    let name = object_name_spec(u, ext);
    assert forall|i: int| 0 <= i < name.len() implies name[i] != '/' && (name[i] == '.' ==> i == u.len()) by {
        if i < u.len() {
            assert(name[i] == u[i]);
        } else if i > u.len() {
            assert(name[i] == ext[i - u.len() - 1]);
        }
    }
    assert(!name.contains('/'));
    assert forall|i: int| 0 <= i < name.len() - 1 && name[i] == '.' implies #[trigger] name[i + 1] != '.' by {
        assert(i == u.len());
    }
}

/// Whether `i` is where a hyphenated UUID has a hyphen.
pub open spec fn uuid_hyphen_at(i: int) -> bool {
    i == 8 || i == 13 || i == 18 || i == 23
}

/// A version-4 UUID in hyphenated form: 36 characters, groups of 8, 4, 4, 4
/// and 12 lower-case hex digits between hyphens, the version digit `4`, and
/// the variant digit one of `8`, `9`, `a`, `b`.
pub open spec fn uuid_text(u: Seq<char>) -> bool {
    &&& u.len() == 36
    &&& forall|i: int|
        0 <= i < u.len() ==> if uuid_hyphen_at(i) {
            #[trigger] u[i] == '-'
        } else {
            '0' <= u[i] <= '9' || 'a' <= u[i] <= 'f'
        }
    &&& u[14] == '4'
    &&& (u[19] == '8' || u[19] == '9' || u[19] == 'a' || u[19] == 'b')
}

/// `uuid::Uuid::new_v4().to_string()`: a random version-4 UUID (RFC 4122
/// variant), written in the lower-case hyphenated form that `Display` gives.
/// The value itself is random; only its form is stated.
#[verifier::external_body]
fn random_uuid() -> (r: String)
    ensures
        uuid_text(r@),
{
    uuid::Uuid::new_v4().to_string()
}

/// A fresh identifier: a random UUID in hyphenated form.
pub fn new_id() -> (r: String)
    ensures
        uuid_text(r@),
{
    random_uuid()
}

/// The name of a stored object: the identifier, and `.ext` when there is an
/// extension.
pub open spec fn object_name_spec(id: Seq<char>, ext: Seq<char>) -> Seq<char> {
    if ext.len() == 0 {
        id
    } else {
        id + seq!['.'] + ext
    }
}

pub fn object_name_with(id: &str, ext: &str) -> (r: String)
    ensures
        r@ == object_name_spec(id@, ext@),
{
    let e = chars_of(ext);
    if e.len() == 0 {
        return string_of(&chars_of(id));
    }
    let dot: Vec<char> = vec!['.'];
    assert(dot@ =~= seq!['.']);
    string_of(&concat_chars(&concat_chars(&chars_of(id), &dot), &e))
}

/// A fresh object name for a file with extension `ext`.
pub fn new_object_name(ext: &str) -> (r: String)
    ensures
        exists|u: Seq<char>| uuid_text(u) && r@ == object_name_spec(u, ext@),
{
    let id = random_uuid();
    object_name_with(id.as_str(), ext)
}

/// The size after appending `len` bytes to an object of `size` bytes; past
/// the upload limit the file is too large.
pub fn grown_size(size: usize, len: usize) -> (r: Result<usize, FileError>)
    ensures
        size + len <= MAX_UPLOAD_BYTES ==> r == Ok::<usize, FileError>((size + len) as usize),
        size + len > MAX_UPLOAD_BYTES ==> r matches Err(FileError::TooLarge),
{
    match size.checked_add(len) {
        Some(total) => if total <= MAX_UPLOAD_BYTES {
            Ok(total)
        } else {
            Err(FileError::TooLarge)
        },
        None => Err(FileError::TooLarge),
    }
}

/// One stored part, read in offset order while assembling: it must start
/// where the previous one ended, hold 1 byte to one chunk, and not run past
/// the total size. The result is where the next part must start.
pub open spec fn part_step(offset: int, part_offset: int, part_size: int, total_size: int) -> Option<int> {
    if part_offset != offset || part_size <= 0 || part_size > UPLOAD_CHUNK_BYTES || part_size
        > total_size - offset {
        None
    } else {
        Some(offset + part_size)
    }
}

pub fn next_part_offset(offset: i64, part_offset: i64, part_size: i64, total_size: i64) -> (r: Result<
    i64,
    FileError,
>)
    requires
        0 <= offset <= total_size,
    ensures
        match part_step(offset as int, part_offset as int, part_size as int, total_size as int) {
            Some(n) => r == Ok::<i64, FileError>(n as i64),
            None => r matches Err(FileError::UploadCorrupt),
        },
{
    if part_offset != offset || part_size <= 0 || part_size > 4194304 || part_size > total_size - offset {
        Err(FileError::UploadCorrupt)
    } else {
        Ok(offset + part_size)
    }
}

/// A part read back must hold as many bytes as were recorded.
pub fn check_part_read(read_len: usize, part_size: i64) -> (r: Result<(), FileError>)
    ensures
        r is Ok <==> read_len == part_size,
        r is Err ==> r matches Err(FileError::UploadCorrupt),
{
    if part_size < 0 || read_len as u64 != part_size as u64 {
        Err(FileError::UploadCorrupt)
    } else {
        Ok(())
    }
}

/// After the last part, the parts must have reached the total size.
pub fn check_assembled(offset: i64, total_size: i64) -> (r: Result<(), FileError>)
    ensures
        r is Ok <==> offset == total_size,
        r is Err ==> r matches Err(FileError::UploadCorrupt),
{
    if offset != total_size {
        Err(FileError::UploadCorrupt)
    } else {
        Ok(())
    }
}

/// Where the checks of parts `(offset, size)`, in order, end, or `None` when
/// one fails.
pub open spec fn parts_end(parts: Seq<(i64, i64)>, total_size: int) -> Option<int>
    decreases parts.len(),
{
    if parts.len() == 0 {
        Some(0)
    } else {
        match parts_end(parts.drop_last(), total_size) {
            Some(o) => part_step(o, parts.last().0 as int, parts.last().1 as int, total_size),
            None => None,
        }
    }
}

/// The sizes of the first `k` parts, added up.
pub open spec fn sizes_before(parts: Seq<(i64, i64)>, k: int) -> int
    decreases k,
{
    if k <= 0 {
        0
    } else {
        sizes_before(parts, k - 1) + parts[k - 1].1
    }
}

/// Parts that tile `[0, total)`: each starts where the ones before it end,
/// holds 1 byte to one chunk, and together they hold exactly `total` bytes.
pub open spec fn parts_tile(parts: Seq<(i64, i64)>, total_size: int) -> bool {
    &&& forall|i: int| 0 <= i < parts.len() ==> (#[trigger] parts[i]).0 == sizes_before(parts, i)
    &&& forall|i: int| 0 <= i < parts.len() ==> 0 < (#[trigger] parts[i]).1 <= UPLOAD_CHUNK_BYTES
    &&& sizes_before(parts, parts.len() as int) == total_size
}

proof fn lemma_sizes_before_prefix(parts: Seq<(i64, i64)>, k: int)
    requires
        0 <= k <= parts.len(),
        parts.len() > 0,
    ensures
        k < parts.len() ==> sizes_before(parts.drop_last(), k) == sizes_before(parts, k),
    decreases k,
{
    if k > 0 {
        lemma_sizes_before_prefix(parts, k - 1);
    }
}

/// Parts whose checks all pass end where their sizes add up to, and start
/// each where the previous one ended.
proof fn lemma_parts_end(parts: Seq<(i64, i64)>, total_size: int)
    requires
        parts_end(parts, total_size) is Some,
    ensures
        parts_end(parts, total_size) == Some(sizes_before(parts, parts.len() as int)),
        sizes_before(parts, parts.len() as int) <= total_size || parts.len() == 0,
        forall|i: int| 0 <= i < parts.len() ==> (#[trigger] parts[i]).0 == sizes_before(parts, i),
        forall|i: int| 0 <= i < parts.len() ==> 0 < (#[trigger] parts[i]).1 <= UPLOAD_CHUNK_BYTES,
    decreases parts.len(),
{
    if parts.len() > 0 {
        let d = parts.drop_last();
        lemma_parts_end(d, total_size);
        assert forall|i: int| 0 <= i < parts.len() implies (#[trigger] parts[i]).0 == sizes_before(
            parts,
            i,
        ) by {
            lemma_sizes_before_prefix(parts, i);
            if i < parts.len() - 1 {
                assert(d[i] == parts[i]);
            } else {
                lemma_sizes_before_prefix(parts, i);
                assert(sizes_before(d, d.len() as int) == sizes_before(parts, i));
            }
        }
        assert forall|i: int| 0 <= i < parts.len() implies 0 < (#[trigger] parts[i]).1 <= UPLOAD_CHUNK_BYTES by {
            if i < parts.len() - 1 {
                assert(d[i] == parts[i]);
            }
        }
        lemma_sizes_before_prefix(parts, parts.len() - 1);
    }
}

/// Assembling accepts exactly the parts that tile the upload: when every
/// part passes its check and the last one ends at the total size, the parts
/// cover `[0, total)` without gaps or overlaps, in chunks of at most 4 MiB.
pub proof fn lemma_accepted_parts_tile(parts: Seq<(i64, i64)>, total_size: int)
    requires
        parts_end(parts, total_size) == Some(total_size),
    ensures
        parts_tile(parts, total_size),
{
    lemma_parts_end(parts, total_size);
}

/// Parts laid out without gaps or overlaps, in chunks of one byte to one
/// chunk, pass their checks up to a total at least as large as they reach.
proof fn lemma_laid_out_parts_pass(parts: Seq<(i64, i64)>, total_size: int)
    requires
        forall|i: int| 0 <= i < parts.len() ==> (#[trigger] parts[i]).0 == sizes_before(parts, i),
        forall|i: int| 0 <= i < parts.len() ==> 0 < (#[trigger] parts[i]).1 <= UPLOAD_CHUNK_BYTES,
        sizes_before(parts, parts.len() as int) <= total_size,
    ensures
        parts_end(parts, total_size) == Some(sizes_before(parts, parts.len() as int)),
    decreases parts.len(),
{
    if parts.len() > 0 {
        let d = parts.drop_last();
        let n = parts.len() as int;
        assert forall|i: int| 0 <= i < d.len() implies (#[trigger] d[i]).0 == sizes_before(d, i) by {
            lemma_sizes_before_prefix(parts, i);
            assert(d[i] == parts[i]);
        }
        assert forall|i: int| 0 <= i < d.len() implies 0 < (#[trigger] d[i]).1 <= UPLOAD_CHUNK_BYTES by {
            assert(d[i] == parts[i]);
        }
        lemma_sizes_before_prefix(parts, n - 1);
        assert(parts[n - 1].0 == sizes_before(parts, n - 1));
        lemma_laid_out_parts_pass(d, total_size);
    }
}

/// Assembling refuses no upload whose parts tile it: parts that cover
/// `[0, total)` without gaps or overlaps, in chunks of one byte to 4 MiB,
/// pass every check and end at the total size.
pub proof fn lemma_tiling_parts_are_accepted(parts: Seq<(i64, i64)>, total_size: int)
    requires
        parts_tile(parts, total_size),
    ensures
        parts_end(parts, total_size) == Some(total_size),
{
    lemma_laid_out_parts_pass(parts, total_size);
}

/// Whether a name may be served as a local object: not empty, no `/`, and
/// no `..`.
pub open spec fn servable_object_name(object: Seq<char>) -> bool {
    object.len() > 0 && !object.contains('/') && !(exists|i: int|
        0 <= i < object.len() - 1 && object[i] == '.' && #[trigger] object[i + 1] == '.')
}

pub fn is_servable_object_name(object: &str) -> (r: bool)
    ensures
        r == servable_object_name(object@),
{
    let chars = chars_of(object);
    if chars.len() == 0 || contains_char(&chars, '/') {
        return false;
    }
    let mut i: usize = 0;
    while i < chars.len() - 1
        invariant
            chars@.len() > 0,
            chars@ == object@,
            i <= chars@.len() - 1,
            forall|j: int| 0 <= j < i ==> !(chars@[j] == '.' && #[trigger] chars@[j + 1] == '.'),
        decreases chars@.len() - i,
    {
        if chars[i] == '.' && chars[i + 1] == '.' {
            assert(object@[i as int] == '.' && object@[i + 1] == '.');
            return false;
        }
        i += 1;
    }
    true
}

/// The media type that `mime_guess` infers from a path's extension
/// (`first_or_octet_stream`).
pub uninterp spec fn guessed_media_type(path: Seq<char>) -> Seq<char>;

/// `mime_guess::from_path(path).first_or_octet_stream()`, as text.
#[verifier::external_body]
fn media_type_of(path: &str) -> (r: String)
    ensures
        r@ == guessed_media_type(path@),
{
    mime_guess::from_path(path).first_or_octet_stream().to_string()
}

/// The content type an object is written with: the media type its name's
/// extension suggests.
pub fn object_content_type(object: &str) -> (r: String)
    ensures
        r@ == guessed_media_type(object@),
{
    media_type_of(object)
}

} // verus!
