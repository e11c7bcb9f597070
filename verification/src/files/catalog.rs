//! The file catalogue: file records, list windows, and the extensions that
//! file names and URLs are filed under.
use vstd::prelude::*;

use crate::text::{
    is_ascii_upper,
    ascii_lowercase, chars_of, is_ascii_alphanumeric, lower_seq, slice_chars, string_of,
    char_is_ascii_alphanumeric,
};

verus! {

/// An uploaded or imported file.
#[derive(Debug, Clone)]
pub struct StoredFile {
    pub id: i64,
    pub storage_id: Option<i64>,
    pub name: String,
    pub url: String,
    pub ext: String,
    pub tag: String,
    pub category: String,
    pub updated_at: String,
}

/// A page of the file list, filtered by keyword and category.
#[derive(Debug, Clone)]
pub struct FileListQuery {
    pub page: i64,
    pub page_size: i64,
    pub keyword: Option<String>,
    pub category: Option<String>,
}

/// A new name for a file.
#[derive(Debug, Clone)]
pub struct RenameFile {
    pub id: i64,
    pub name: String,
}

/// A file that lives at an outside URL.
#[derive(Debug, Clone)]
pub struct ImportFileUrl {
    pub name: String,
    pub url: String,
    pub tag: String,
    pub category: String,
}

/// The page, page size and row offset of a list request: page and size are
/// at least one.
pub open spec fn list_window_spec(page: i64, page_size: i64) -> (int, int, int) {
    let p: int = if page < 1 {
        1
    } else {
        page as int
    };
    let s: int = if page_size < 1 {
        1
    } else {
        page_size as int
    };
    (p, s, (p - 1) * s)
}

/// Pages follow one another without gaps or overlaps: the first page
/// starts at the beginning, each next page starts right after the one
/// before, and a page or page size below one counts as one.
pub proof fn lemma_pages_follow_each_other(page: i64, page_size: i64)
    ensures
        list_window_spec(page, page_size).2 >= 0,
        list_window_spec(1, page_size).2 == 0,
        page < 1 ==> list_window_spec(page, page_size) == list_window_spec(1, page_size),
        page_size < 1 ==> list_window_spec(page, page_size) == list_window_spec(page, 1),
        page >= 1 && page < i64::MAX ==> list_window_spec((page + 1) as i64, page_size).2 == list_window_spec(
            page,
            page_size,
        ).2 + list_window_spec(page, page_size).1,
{
    let (p, s, o) = list_window_spec(page, page_size);
    assert(p >= 1 && s >= 1);
    assert((p - 1) * s >= 0) by (nonlinear_arith)
        requires
            p >= 1,
            s >= 1,
    ;
    assert(p * s == (p - 1) * s + s) by (nonlinear_arith);
}

pub fn list_window(query: &FileListQuery) -> (r: (i64, i64, i64))
    requires
        i64::MIN <= list_window_spec(query.page, query.page_size).2 <= i64::MAX,
    ensures
        r.0 == list_window_spec(query.page, query.page_size).0,
        r.1 == list_window_spec(query.page, query.page_size).1,
        r.2 == list_window_spec(query.page, query.page_size).2,
{
    let page: i64 = if query.page < 1 {
        1
    } else {
        query.page
    };
    let page_size: i64 = if query.page_size < 1 {
        1
    } else {
        query.page_size
    };
    let offset: i64 = (page - 1) * page_size;
    (page, page_size, offset)
}

/// The page, page size and row offset of a list request, or `None` when the
/// offset does not fit in an `i64`.
pub fn page_window(page: i64, page_size: i64) -> (r: Option<(i64, i64, i64)>)
    ensures
        match r {
            Some(w) => w.0 == list_window_spec(page, page_size).0 && w.1 == list_window_spec(page, page_size).1
                && w.2 == list_window_spec(page, page_size).2,
            None => !(i64::MIN <= list_window_spec(page, page_size).2 <= i64::MAX),
        },
{
    let page: i64 = if page < 1 {
        1
    } else {
        page
    };
    let page_size: i64 = if page_size < 1 {
        1
    } else {
        page_size
    };
    match (page - 1).checked_mul(page_size) {
        Some(offset) => Some((page, page_size, offset)),
        None => None,
    }
}

/// The result of `std::path::Path::extension` on a path, as text when it
/// is valid Unicode.
pub uninterp spec fn path_extension(path: Seq<char>) -> Option<Seq<char>>;

/// `Path::new(path).extension()` read as text.
#[verifier::external_body]
fn path_extension_of(path: &str) -> (r: Option<String>)
    ensures
        match r {
            Some(s) => path_extension(path@) == Some(s@),
            None => path_extension(path@) is None,
        },
{
    std::path::Path::new(path).extension().and_then(|e| e.to_str()).map(str::to_string)
}

/// The text before the first `?` or `#`.
pub open spec fn path_part(value: Seq<char>) -> Seq<char>
    decreases value.len(),
{
    if value.len() == 0 || value[0] == '?' || value[0] == '#' {
        Seq::empty()
    } else {
        seq![value[0]] + path_part(value.drop_first())
    }
}

fn path_part_exec(value: &[char]) -> (r: Vec<char>)
    ensures
        r@ == path_part(value@),
{
    let mut i: usize = 0;
    assert(value@.skip(0) =~= value@);
    assert(value@.subrange(0, 0) + path_part(value@) =~= path_part(value@));
    while i < value.len() && value[i] != '?' && value[i] != '#'
        invariant
            i <= value@.len(),
            path_part(value@) == value@.subrange(0, i as int) + path_part(value@.skip(i as int)),
        decreases value@.len() - i,
    {
        assert(value@.skip(i as int).drop_first() =~= value@.skip(i + 1));
        assert(value@.subrange(0, i as int) + seq![value@[i as int]] =~= value@.subrange(0, i + 1));
        assert(value@.subrange(0, i as int) + (seq![value@[i as int]] + path_part(value@.skip(i + 1)))
            =~= value@.subrange(0, i + 1) + path_part(value@.skip(i + 1)));
        i += 1;
    }
    assert(path_part(value@.skip(i as int)) =~= Seq::<char>::empty());
    assert(value@.subrange(0, i as int) + Seq::<char>::empty() =~= value@.subrange(0, i as int));
    slice_chars(value, 0, i)
}

/// The extension a name or URL is filed under: of the part before any `?`
/// or `#`, the path's extension in ASCII lower case, or empty.
pub open spec fn normalized_extension_spec(value: Seq<char>) -> Seq<char> {
    match path_extension(path_part(value)) {
        Some(e) => lower_seq(e),
        None => Seq::empty(),
    }
}

/// The extension as it is filed: in ASCII lower case, or empty when there
/// is none.
pub open spec fn lowered_extension_spec(ext: Option<Seq<char>>) -> Seq<char> {
    match ext {
        Some(e) => lower_seq(e),
        None => Seq::empty(),
    }
}

/// A filed extension keeps its length and holds no ASCII upper-case letter;
/// filing it again changes nothing.
pub proof fn lemma_filed_extensions_are_lower_case(ext: Seq<char>)
    ensures
        lowered_extension_spec(Some(ext)).len() == ext.len(),
        forall|i: int|
            0 <= i < ext.len() ==> !is_ascii_upper(#[trigger] lowered_extension_spec(Some(ext))[i]),
        lowered_extension_spec(Some(lowered_extension_spec(Some(ext)))) == lowered_extension_spec(Some(ext)),
{
    let l = lower_seq(ext);
    assert forall|i: int| 0 <= i < ext.len() implies !is_ascii_upper(#[trigger] l[i]) by {
        let c = ext[i];
        if is_ascii_upper(c) {
            assert(65 <= c as u32 <= 90);
            assert(97 <= (c as u32 + 32) <= 122);
        }
    }
    assert(lower_seq(l) =~= l);
}

/// Files an extension that a path gave: in ASCII lower case, or empty when
/// the path has none.
pub fn lowered_extension(ext: Option<&str>) -> (r: String)
    ensures
        r@ == lowered_extension_spec(
            match ext {
                Some(e) => Some(e@),
                None => None,
            },
        ),
{
    match ext {
        Some(e) => string_of(&ascii_lowercase(&chars_of(e))),
        None => String::new(),
    }
}

pub fn normalized_extension(value: &str) -> (r: String)
    ensures
        r@ == normalized_extension_spec(value@),
{
    let chars = chars_of(value);
    let path = string_of(&path_part_exec(&chars));
    let ext = path_extension_of(path.as_str());
    match &ext {
        Some(e) => lowered_extension(Some(e.as_str())),
        None => lowered_extension(None),
    }
}

/// An extension safe to keep: at most 16 ASCII letters and digits.
pub open spec fn is_safe_extension(ext: Seq<char>) -> bool {
    ext.len() <= 16 && forall|i: int| 0 <= i < ext.len() ==> is_ascii_alphanumeric(#[trigger] ext[i])
}

/// The normalized extension when it is safe to keep, else empty.
pub open spec fn safe_extension_spec(value: Seq<char>) -> Seq<char> {
    let e = normalized_extension_spec(value);
    if is_safe_extension(e) {
        e
    } else {
        Seq::empty()
    }
}

pub fn safe_extension(value: &str) -> (r: String)
    ensures
        r@ == safe_extension_spec(value@),
        is_safe_extension(r@),
{
    let ext = normalized_extension(value);
    let chars = chars_of(ext.as_str());
    if chars.len() > 16 {
        return String::new();
    }
    let mut i: usize = 0;
    while i < chars.len()
        invariant
            i <= chars@.len(),
            chars@ == ext@,
            ext@ == normalized_extension_spec(value@),
            forall|j: int| 0 <= j < i ==> is_ascii_alphanumeric(#[trigger] chars@[j]),
        decreases chars@.len() - i,
    {
        if !char_is_ascii_alphanumeric(chars[i]) {
            assert(!is_safe_extension(chars@)) by {
                assert(!is_ascii_alphanumeric(chars@[i as int]));
            }
            return String::new();
        }
        i += 1;
    }
    ext
}

} // verus!
