//! The streaming download pipeline: the access gate, the response headers,
//! the preview metadata, the QR rendering, and the lifecycle bookkeeping
//! that bumps the download counter only when a stream ran to its end.

use vstd::prelude::*;

verus! {

use vstd::string::{StrSliceExecFns, StringExecFns};
use crate::auth::spec_standalone_auth;
use crate::error::ServiceError;
use crate::index::{Index, sat_add_i64, lemma_file_with_id_unique};
use crate::records::{File, FileV, FileAccess, PreviewData};

/// Query flags of the download route.
#[derive(Clone, Debug)]
pub struct DownloadQuery {
    /// Raw download: no content-disposition header.
    pub r: Option<String>,
    /// Preview: refused above the preview size ceiling.
    pub p: Option<String>,
}

/// Query flags of the QR route.
#[derive(Clone, Copy, Debug)]
pub struct QrCodeQuery {
    pub preview_link: Option<bool>,
}

/// Files above this size are not previewed.
pub const PREVIEW_FILE_LIMIT: i64 = 512_000_000;

/// Whether a query flag is the literal `t`.
pub open spec fn spec_flag_set(v: Option<Seq<char>>) -> bool {
    v == Some(seq!['t'])
}

/// Whether an optional query value holds the literal `t`.
pub fn flag_set(v: &Option<String>) -> (r: bool)
    ensures
        r == spec_flag_set(match v {
            Some(s) => Some(s@),
            None => None,
        }),
{
    proof {
        reveal_strlit("t");
        assert("t"@ =~= seq!['t']);
    }
    match v {
        Some(s) => crate::text::str_eq(s.as_str(), "t"),
        None => false,
    }
}

/// The characters after the last slash: the file's own name.
pub open spec fn spec_basename(p: Seq<char>) -> Seq<char>
    decreases p.len(),
{
    if p.len() == 0 {
        p
    } else if p.last() == '/' {
        Seq::empty()
    } else {
        spec_basename(p.drop_last()).push(p.last())
    }
}

proof fn lemma_basename_skip(p: Seq<char>, i: int)
    requires
        0 <= i <= p.len(),
        forall|j: int| i <= j < p.len() ==> (#[trigger] p[j]) != '/',
        i == 0 || p[i - 1] == '/',
    ensures
        spec_basename(p) == p.skip(i),
    decreases p.len() - i,
{
    if i == p.len() {
        if i > 0 {
            assert(spec_basename(p) =~= Seq::<char>::empty());
        }
        assert(p.skip(i) =~= Seq::<char>::empty());
        if i == 0 {
            assert(p.len() == 0);
            assert(spec_basename(p) == p);
        }
    } else {
        assert(p.last() != '/');
        lemma_basename_skip(p.drop_last(), i);
        assert(p.skip(i) =~= p.drop_last().skip(i).push(p.last()));
    }
}

/// The last path component of `path`, the characters after its last slash.
pub fn basename(path: &str) -> (r: String)
    ensures
        r@ == spec_basename(path@),
{
    let n = path.unicode_len();
    let mut i: usize = n;
    while i > 0 && path.get_char(i - 1) != '/'
        invariant
            n == path@.len(),
            i <= n,
            forall|j: int| i <= j < n ==> (#[trigger] path@[j]) != '/',
        decreases i,
    {
        i = i - 1;
    }
    let out = path.substring_char(i, n).to_owned();
    proof {
        lemma_basename_skip(path@, i as int);
        assert(path@.subrange(i as int, n as int) =~= path@.skip(i as int));
    }
    out
}

/// The percent-encoding of a string with every non-alphanumeric byte
/// escaped.
pub uninterp spec fn percent_encoded(s: Seq<char>) -> Seq<char>;

/// Relies on percent_encoding::utf8_percent_encode with the
/// NON_ALPHANUMERIC set: the encoding is a function of the characters
/// alone.
#[verifier::external_body]
fn percent_encode_str(s: &str) -> (r: String)
    ensures
        r@ == percent_encoded(s@),
{
    percent_encoding::utf8_percent_encode(s, percent_encoding::NON_ALPHANUMERIC).to_string()
}

/// The guessed MIME type for a path, from its extension; None when no
/// guess exists.
pub uninterp spec fn mime_guess_of(path: Seq<char>) -> Option<Seq<char>>;

/// Relies on mime_guess::from_path and MimeGuess::first: the guess is a
/// function of the path alone, from a static extension table.
#[verifier::external_body]
fn guess_mime(path: &str) -> (r: Option<String>)
    ensures
        match r {
            Some(m) => mime_guess_of(path@) == Some(m@),
            None => mime_guess_of(path@) == None::<Seq<char>>,
        },
{
    match mime_guess::from_path(path).first() {
        Some(m) => Some(m.to_string()),
        None => None,
    }
}

/// The MIME type a download response announces: the guess for the path,
/// else the octet-stream fallback.
pub open spec fn spec_mime_type(path: Seq<char>) -> Seq<char> {
    match mime_guess_of(path) {
        Some(m) => m,
        None => "application/octet-stream"@,
    }
}

/// The MIME type for a stored path, with the octet-stream fallback.
pub fn get_mime_type(path: &str) -> (r: String)
    ensures
        r@ == spec_mime_type(path@),
{
    match guess_mime(path) {
        Some(m) => m,
        None => "application/octet-stream".to_owned(),
    }
}

/// The attachment header for a path: its basename, percent-encoded, in an
/// `attachment; filename*=UTF-8''` header. An empty basename is reported
/// as `unknown`.
pub open spec fn spec_content_disposition(path: Seq<char>) -> Seq<char> {
    let name = if spec_basename(path).len() == 0 {
        "unknown"@
    } else {
        spec_basename(path)
    };
    "attachment; filename*=UTF-8''"@ + percent_encoded(name)
}

/// The `Content-Disposition` header value for a stored path.
pub fn content_disposition(path: &str) -> (r: String)
    ensures
        r@ == spec_content_disposition(path@),
{
    let name = basename(path);
    let name = if name.as_str().unicode_len() == 0 {
        "unknown".to_owned()
    } else {
        name
    };
    let encoded = percent_encode_str(name.as_str());
    let mut out = "attachment; filename*=UTF-8''".to_owned();
    out.append(encoded.as_str());
    out
}

/// What the download route decided: the record to stream and the headers
/// to put on the response.
#[derive(Debug)]
pub struct DownloadPlan {
    /// The record being downloaded.
    pub file: File,
    /// Raw download: the attachment header is omitted.
    pub raw: bool,
    /// The attachment header for the record's path.
    pub content_disposition: String,
    /// The announced MIME type.
    pub mime_type: String,
}

/// The access gate and header computation of the download route.
///
/// The id must name a record, the bytes must exist on storage, and a
/// Private record needs a valid token; a preview request is refused above
/// the preview size ceiling.
pub fn download_decision(
    index: &Index,
    id: &str,
    query: &DownloadQuery,
    exists_in_storage: bool,
    cookie_token: Option<&str>,
    auth_header: Option<&str>,
    actual_token: &str,
) -> (r: Result<DownloadPlan, ServiceError>)
    requires
        index@.wf(),
    ensures
        ({
            let authed = spec_standalone_auth(
                match cookie_token {
                    Some(c) => Some(c@),
                    None => None,
                },
                match auth_header {
                    Some(h) => Some(h@),
                    None => None,
                },
                actual_token@,
            );
            match r {
                Ok(plan) => {
                    let f = index@.spec_file_with_id(id@);
                    &&& index@.has_file_id(id@)
                    &&& exists_in_storage
                    &&& (FileAccess::spec_from_i64(f.access) == FileAccess::Private ==> authed)
                    &&& plan.file@ == f
                    &&& plan.raw == spec_flag_set(
                        match &query.r {
                            Some(s) => Some(s@),
                            None => None,
                        },
                    )
                    &&& plan.content_disposition@ == spec_content_disposition(f.path)
                    &&& plan.mime_type@ == spec_mime_type(f.path)
                    &&& (spec_flag_set(
                        match &query.p {
                            Some(s) => Some(s@),
                            None => None,
                        },
                    ) ==> f.size <= PREVIEW_FILE_LIMIT)
                },
                Err(e) => match e {
                    ServiceError::NotFound => !index@.has_file_id(id@) || !exists_in_storage,
                    ServiceError::Unauthorized => {
                        &&& index@.has_file_id(id@)
                        &&& exists_in_storage
                        &&& FileAccess::spec_from_i64(index@.spec_file_with_id(id@).access)
                            == FileAccess::Private
                        &&& !authed
                    },
                    ServiceError::InvalidArgument => {
                        &&& index@.has_file_id(id@)
                        &&& exists_in_storage
                        &&& (FileAccess::spec_from_i64(index@.spec_file_with_id(id@).access)
                            == FileAccess::Private ==> authed)
                        &&& spec_flag_set(
                            match &query.p {
                                Some(s) => Some(s@),
                                None => None,
                            },
                        )
                        &&& index@.spec_file_with_id(id@).size > PREVIEW_FILE_LIMIT
                    },
                    _ => false,
                },
            }
        }),
{
    let file = match index.get_via_id(id) {
        Some(f) => {
            proof {
                lemma_file_with_id_unique(index@, id@, f@);
            }
            f.duplicate()
        },
        None => {
            return Err(ServiceError::NotFound);
        },
    };
    if !exists_in_storage {
        return Err(ServiceError::NotFound);
    }
    let authed = crate::auth::standalone_auth(cookie_token, auth_header, actual_token);
    if matches!(file.get_access(), FileAccess::Private) && !authed {
        return Err(ServiceError::Unauthorized);
    }
    if flag_set(&query.p) && file.size > PREVIEW_FILE_LIMIT {
        return Err(ServiceError::InvalidArgument);
    }
    let raw = flag_set(&query.r);
    let content_disposition = content_disposition(file.path.as_str());
    let mime_type = get_mime_type(file.path.as_str());
    Ok(DownloadPlan { file, raw, content_disposition, mime_type })
}

/// The preview-metadata decision: the same gate as a download, returning
/// the record's public description instead of its bytes.
pub fn get_preview_data(
    index: &Index,
    id: &str,
    exists_in_storage: bool,
    authed: bool,
) -> (r: Result<PreviewData, ServiceError>)
    requires
        index@.wf(),
    ensures
        match r {
            Ok(d) => {
                let f = index@.spec_file_with_id(id@);
                &&& index@.has_file_id(id@)
                &&& exists_in_storage
                &&& (FileAccess::spec_from_i64(f.access) == FileAccess::Private ==> authed)
                &&& d.size == f.size
                &&& d.file_name@ == (if spec_basename(f.path).len() == 0 {
                    "unknown name"@
                } else {
                    spec_basename(f.path)
                })
                &&& d.id@ == id@
                &&& d.created_at == f.created_at
                &&& d.mime_type@ == spec_mime_type(f.path)
                &&& d.access == f.access
                &&& (match &d.path {
                    Some(p) => authed && p@ == f.path,
                    None => !authed,
                })
                &&& d.cant_preview == (f.size > PREVIEW_FILE_LIMIT)
            },
            Err(e) => match e {
                ServiceError::NotFound => !index@.has_file_id(id@) || !exists_in_storage,
                ServiceError::Unauthorized => {
                    &&& index@.has_file_id(id@)
                    &&& exists_in_storage
                    &&& FileAccess::spec_from_i64(index@.spec_file_with_id(id@).access)
                        == FileAccess::Private
                    &&& !authed
                },
                _ => false,
            },
        },
{
    let file = match index.get_via_id(id) {
        Some(f) => {
            proof {
                lemma_file_with_id_unique(index@, id@, f@);
            }
            f.duplicate()
        },
        None => {
            return Err(ServiceError::NotFound);
        },
    };
    if !exists_in_storage {
        return Err(ServiceError::NotFound);
    }
    if matches!(file.get_access(), FileAccess::Private) && !authed {
        return Err(ServiceError::Unauthorized);
    }
    let name = basename(file.path.as_str());
    let file_name = if name.as_str().unicode_len() == 0 {
        "unknown name".to_owned()
    } else {
        name
    };
    let mime_type = get_mime_type(file.path.as_str());
    let cant_preview = file.size > PREVIEW_FILE_LIMIT;
    Ok(PreviewData {
        size: file.size,
        file_name,
        id: id.to_owned(),
        created_at: file.created_at,
        mime_type,
        access: file.access,
        path: if authed {
            Some(file.path)
        } else {
            None
        },
        cant_preview,
    })
}

/// The PNG image of the QR code for a text; None when the text cannot be
/// encoded.
pub uninterp spec fn qr_png_of(text: Seq<char>) -> Seq<u8>;

/// Relies on qrcode::QrCode::new, its Luma renderer and image's PNG
/// encoder, one deterministic pipeline from text to pixels: the PNG bytes
/// are a function of the text alone; None when the text does not fit a
/// code or the encoder refuses.
#[verifier::external_body]
pub(crate) fn qr_png(text: &str) -> (r: Option<Vec<u8>>)
    ensures
        r matches Some(b) ==> b@ == qr_png_of(text@),
{
    let code = match qrcode::QrCode::new(text.as_bytes()) {
        Ok(c) => c,
        Err(_) => {
            return None;
        },
    };
    let img = code.render::<image::Luma<u8>>().build();
    let mut bytes: Vec<u8> = Vec::new();
    match img.write_to(&mut std::io::Cursor::new(&mut bytes), image::ImageFormat::Png) {
        Ok(()) => Some(bytes),
        Err(_) => None,
    }
}

/// The text a file's QR code carries: the base URL, `/d/`, the file id.
pub open spec fn spec_qr_text(base_url: Seq<char>, file_id: Seq<char>) -> Seq<char> {
    base_url + "/d/"@ + file_id
}

/// The QR gate of the download surface: pick the web or backend base URL,
/// check record, storage and token, and render the download link as a PNG.
pub fn qr_code(
    index: &Index,
    id: &str,
    preview_link: bool,
    web_url: Option<&String>,
    backend_url: Option<&String>,
    exists_in_storage: bool,
    authed: bool,
) -> (r: Result<Vec<u8>, ServiceError>)
    requires
        index@.wf(),
    ensures
        match r {
            Ok(bytes) => {
                let base = if preview_link {
                    web_url
                } else {
                    backend_url
                };
                &&& base is Some
                &&& index@.has_file_id(id@)
                &&& exists_in_storage
                &&& authed
                &&& bytes@ == qr_png_of(
                    spec_qr_text(base.unwrap()@, index@.spec_file_with_id(id@).id),
                )
            },
            Err(e) => match e {
                ServiceError::Internal => (if preview_link {
                    web_url
                } else {
                    backend_url
                }) is None || (index@.has_file_id(id@) && exists_in_storage && authed),
                ServiceError::NotFound => (if preview_link {
                    web_url
                } else {
                    backend_url
                }) is Some && (!index@.has_file_id(id@) || !exists_in_storage),
                ServiceError::Unauthorized => (if preview_link {
                    web_url
                } else {
                    backend_url
                }) is Some && index@.has_file_id(id@) && exists_in_storage && !authed,
                _ => false,
            },
        },
{
    let base: &String = match (if preview_link {
        web_url
    } else {
        backend_url
    }) {
        Some(u) => u,
        None => {
            return Err(ServiceError::Internal);
        },
    };
    let file = match index.get_via_id(id) {
        Some(f) => {
            proof {
                lemma_file_with_id_unique(index@, id@, f@);
            }
            f.duplicate()
        },
        None => {
            return Err(ServiceError::NotFound);
        },
    };
    if !exists_in_storage {
        return Err(ServiceError::NotFound);
    }
    if !authed {
        return Err(ServiceError::Unauthorized);
    }
    let mut text = base.clone();
    text.append("/d/");
    text.append(file.id.as_str());
    match qr_png(text.as_str()) {
        Some(bytes) => Ok(bytes),
        None => Err(ServiceError::Internal),
    }
}

/// Bookkeeping around one download response body.
///
/// The flag moves to `completed` exactly when the source stream ends with
/// a clean end-of-file — not on an error and not on cancellation — and
/// only a completed stream bumps the download counter when the response is
/// finished.
pub struct DownloadStream {
    /// The downloaded record's id.
    pub file_id: String,
    /// Whether the source stream has delivered its clean end.
    pub completed: bool,
}

impl DownloadStream {
    /// Bookkeeping for a fresh response: nothing completed yet.
    pub fn new(file_id: String) -> (r: DownloadStream)
        ensures
            r.file_id@ == file_id@,
            !r.completed,
    {
        DownloadStream { file_id, completed: false }
    }

    /// The source stream ended cleanly: this download counts.
    pub fn on_eof(&mut self)
        ensures
            final(self).file_id@ == old(self).file_id@,
            final(self).completed,
    {
        self.completed = true;
    }

    /// The stream is over exactly when its end was seen.
    pub fn is_end_stream(&self) -> (r: bool)
        ensures
            r == self.completed,
    {
        self.completed
    }

    /// Close the response: a completed download bumps the record's counter
    /// by one and stamps the download instant; a cancelled or failed one
    /// leaves the index untouched.
    pub fn finalize(&self, index: &mut Index, now: i64)
        requires
            old(index)@.wf(),
        ensures
            final(index)@.wf(),
            !self.completed ==> final(index)@ == old(index)@,
            self.completed && !old(index)@.has_file_id(self.file_id@) ==> final(index)@ == old(
                index,
            )@,
            self.completed && old(index)@.has_file_id(self.file_id@) ==> exists|k: int|
                0 <= k < old(index)@.files.len() && (#[trigger] old(index)@.files[k]).id
                    == self.file_id@ && final(index)@.files == old(index)@.files.update(
                    k,
                    (FileV {
                        download_count: sat_add_i64(old(index)@.files[k].download_count, 1),
                        last_downloaded_at: Some(now),
                        updated_at: now,
                        ..old(index)@.files[k]
                    }),
                ) && final(index)@.links == old(index)@.links,
    {
        if self.completed {
            index.increment_download_count(self.file_id.as_str(), 1, now);
        }
    }
}

/// The text a link's QR code carries: the web base URL, `/u/`, the link id.
pub open spec fn spec_link_qr_text(web_url: Seq<char>, link_id: Seq<char>) -> Seq<char> {
    web_url + "/u/"@ + link_id
}

/// The QR gate of the link surface: the link must still grant an upload,
/// and the rendered code carries the web client's upload URL for it.
pub fn qr_code_link(index: &Index, id: &str, web_url: Option<&String>) -> (r: Result<
    Vec<u8>,
    ServiceError,
>)
    requires
        index@.wf(),
    ensures
        match r {
            Ok(bytes) => {
                &&& web_url is Some
                &&& index@.has_link_id(id@)
                &&& index@.spec_link_with_id(id@).spec_is_valid_to_use()
                &&& bytes@ == qr_png_of(
                    spec_link_qr_text(web_url.unwrap()@, index@.spec_link_with_id(id@).id),
                )
            },
            Err(e) => match e {
                ServiceError::Internal => web_url is None || (index@.has_link_id(id@)
                    && index@.spec_link_with_id(id@).spec_is_valid_to_use()),
                ServiceError::NotFound => web_url is Some && !index@.has_link_id(id@),
                ServiceError::InvalidArgument => web_url is Some && index@.has_link_id(id@)
                    && !index@.spec_link_with_id(id@).spec_is_valid_to_use(),
                _ => false,
            },
        },
{
    let base: &String = match web_url {
        Some(u) => u,
        None => {
            return Err(ServiceError::Internal);
        },
    };
    let link = match index.get_link_via_id(id) {
        Some(l) => {
            proof {
                crate::index::lemma_link_with_id_unique(index@, id@, l@);
            }
            l.duplicate()
        },
        None => {
            return Err(ServiceError::NotFound);
        },
    };
    if !link.is_valid_to_use() {
        return Err(ServiceError::InvalidArgument);
    }
    let mut text = base.clone();
    text.append("/u/");
    text.append(link.id.as_str());
    match qr_png(text.as_str()) {
        Some(bytes) => Ok(bytes),
        None => Err(ServiceError::Internal),
    }
}

/// Counter semantics: below the counter's ceiling, a completed download
/// adds exactly one.
pub proof fn lemma_counter_increments_by_one(count: i64)
    requires
        0 <= count < i64::MAX,
    ensures
        sat_add_i64(count, 1) == count + 1,
{
}

} // verus!
