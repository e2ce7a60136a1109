//! Serving files: which file a request path names, and how a file is
//! answered (freshly, or as not modified).

use std::time::{Duration, UNIX_EPOCH};

use vstd::prelude::*;

use crate::ahtml::meta::str_eq;
use crate::auri::path::{path_append, path_extension, path_pushed, std_path_extension};
use crate::chj_util::myasstr::MyAsStr;
use crate::date_format::{decimal, push_decimal_u64};
use crate::http_request_method::HttpRequestMethodSimple;
use crate::systime::TimeStamp;

verus! {

/// The path that the segments `segs` denote, with `acc` already
/// resolved: "." and empty segments are dropped (so "a//b/" is "a/b"),
/// ".." drops the segment before it; `None` when there is none to
/// drop.
pub open spec fn canonical_from(segs: Seq<Seq<char>>, acc: Seq<Seq<char>>) -> Option<Seq<Seq<char>>>
    decreases segs.len(),
{
    if segs.len() == 0 {
        Some(acc)
    } else {
        let s = segs[0];
        if s == "."@ {
            canonical_from(segs.drop_first(), acc)
        } else if s == ".."@ {
            if acc.len() == 0 {
                None
            } else {
                canonical_from(segs.drop_first(), acc.drop_last())
            }
        } else if s == ""@ {
            canonical_from(segs.drop_first(), acc)
        } else {
            canonical_from(segs.drop_first(), acc.push(s))
        }
    }
}

pub open spec fn str_views<S: MyAsStr>(p: Seq<S>) -> Seq<Seq<char>> {
    p.map_values(|s: S| s.str_view())
}

pub open spec fn strs_view(v: Seq<&str>) -> Seq<Seq<char>> {
    v.map_values(|s: &str| s@)
}

/// The path segments with "." and empty segments dropped and ".."
/// resolved; `None` when a ".." would go above the start.
pub fn canonicalize_path<'s, S: MyAsStr + 's>(path: &'s [S]) -> (r: Option<Vec<&'s str>>)
    ensures
        match canonical_from(str_views(path@), Seq::empty()) {
            None => r is None,
            Some(v) => r matches Some(o) && strs_view(o@) == v,
        },
{
    let mut out: Vec<&'s str> = Vec::new();
    let mut i: usize = 0;
    let ghost all = str_views(path@);
    assert(all.skip(0) =~= all);
    assert(strs_view(out@) =~= Seq::<Seq<char>>::empty());
    while i < path.len()
        invariant
            i <= path@.len(),
            all == str_views(path@),
            canonical_from(all.skip(i as int), strs_view(out@)) == canonical_from(all, Seq::empty()),
        decreases path@.len() - i,
    {
        let segment = path[i].my_as_str();
        proof {
            assert(all.skip(i as int)[0] == segment@);
            assert(all.skip(i as int).drop_first() =~= all.skip(i + 1));
        }
        let ghost before = out@;
        if str_eq(segment, ".") {
        } else if str_eq(segment, "..") {
            if out.len() == 0 {
                return None;
            }
            let _ = out.pop();
            assert(strs_view(out@) =~= strs_view(before).drop_last());
        } else if str_eq(segment, "") {
        } else {
            out.push(segment);
            assert(strs_view(out@) =~= strs_view(before).push(segment@));
        }
        i = i + 1;
    }
    assert(all.skip(i as int) =~= Seq::<Seq<char>>::empty());
    Some(out)
}

/// Whether a file modified at `mtime` is newer than the snapshot taken
/// at `modsince`: by at least a second, since an HTTP date (which
/// `modsince` comes from) has no fractions of a second while `mtime`
/// has.
pub fn file_is_newer_than_snapshot_time(mtime: TimeStamp, modsince: TimeStamp) -> (r: bool)
    requires
        mtime.wf(),
        modsince.wf(),
    ensures
        r == (mtime.total_nanos() - modsince.total_nanos() >= 1_000_000_000),
{
    let diff: i128 = (mtime.secs as i128 - modsince.secs as i128) * 1_000_000_000i128 + (
    mtime.nanos as i128 - modsince.nanos as i128);
    diff >= 1_000_000_000i128
}

/// The segments joined with '/' between them.
pub open spec fn join_slash(segs: Seq<Seq<char>>) -> Seq<char>
    decreases segs.len(),
{
    if segs.len() == 0 {
        Seq::empty()
    } else if segs.len() == 1 {
        segs[0]
    } else {
        join_slash(segs.drop_last()) + "/"@ + segs.last()
    }
}

/// `segs` joined with '/' between them.
pub fn join_segments(segs: &Vec<&str>) -> (r: String)
    ensures
        r@ == join_slash(strs_view(segs@)),
{
    let mut out = String::new();
    let mut i: usize = 0;
    while i < segs.len()
        invariant
            i <= segs@.len(),
            out@ == join_slash(strs_view(segs@.take(i as int))),
        decreases segs@.len() - i,
    {
        proof {
            assert(strs_view(segs@.take(i + 1)).drop_last() =~= strs_view(segs@.take(i as int)));
            assert(strs_view(segs@.take(i + 1)).last() == segs@[i as int]@);
        }
        if i > 0 {
            out.append("/");
        }
        out.append(segs[i]);
        i = i + 1;
    }
    assert(segs@.take(segs@.len() as int) =~= segs@);
    out
}

#[derive(Debug)]
pub enum FileHandlerError {
    /// Files cannot be posted to.
    CantPost,
    /// The If-Modified-Since header holds no HTTP date.
    InvalidIfModifiedSince,
}

/// Serves files from the local file system.
#[derive(Debug)]
pub struct FileHandler {
    /// Path to the base directory in the local file system from which
    /// to serve the files. No ".." or "." are allowed in the surplus of
    /// the request path.
    basepath: String,
}

impl FileHandler {
    pub closed spec fn spec_basepath(&self) -> Seq<char> {
        self.basepath@
    }

    pub fn new(basepath: String) -> (r: FileHandler)
        ensures
            r.spec_basepath() == basepath@,
    {
        FileHandler { basepath }
    }

    /// The file that a request with `method` for the path surplus
    /// `pathrest` asks for: an error for a POST, `None` when the path
    /// goes above the base directory or names the base directory
    /// itself; else the base directory joined with the canonical path.
    pub fn target_path<S: MyAsStr>(&self, method: HttpRequestMethodSimple, pathrest: &[S]) -> (r: Result<
        Option<String>,
        FileHandlerError,
    >)
        ensures
            method == HttpRequestMethodSimple::POST ==> r is Err,
            method != HttpRequestMethodSimple::POST ==> match canonical_from(
                str_views(pathrest@),
                Seq::empty(),
            ) {
                None => r matches Ok(None),
                Some(v) => if v.len() == 0 {
                    r matches Ok(None)
                } else {
                    r matches Ok(Some(p)) && p@ == path_pushed(self.spec_basepath(), join_slash(v))
                        && (join_slash(v)[0] != '/' ==> self.spec_basepath().is_prefix_of(p@)
                        && join_slash(v).is_suffix_of(p@))
                },
            },
    {
        if method.is_post() {
            return Err(FileHandlerError::CantPost);
        }
        let canonpath = match canonicalize_path(pathrest) {
            Some(p) => p,
            None => {
                return Ok(None);
            },
        };
        if canonpath.len() == 0 {
            return Ok(None);
        }
        let canonpathstr = join_segments(&canonpath);
        Ok(Some(path_append(self.basepath.as_str(), canonpathstr.as_str())))
    }
}

/// How a file request is answered.
#[derive(Debug, Clone, Copy, PartialEq, Eq, Structural)]
pub enum FileResponseKind {
    /// 200, with the file.
    Ok200,
    /// 304, without it.
    NotModified304,
}

/// The answer for a file modified at `mtime`, given the request's
/// If-Modified-Since time (already parsed) and If-None-Match value,
/// and the file's ETag: the former decides if present, else the latter.
pub fn file_response_kind(
    mtime: TimeStamp,
    if_modified_since: Option<TimeStamp>,
    if_none_match: Option<&str>,
    etag: &str,
) -> (r: FileResponseKind)
    requires
        mtime.wf(),
        if_modified_since matches Some(t) ==> t.wf(),
    ensures
        match if_modified_since {
            Some(t) => r == if mtime.total_nanos() - t.total_nanos() >= 1_000_000_000 {
                FileResponseKind::Ok200
            } else {
                FileResponseKind::NotModified304
            },
            None => match if_none_match {
                Some(n) => r == if n@ == etag@ {
                    FileResponseKind::NotModified304
                } else {
                    FileResponseKind::Ok200
                },
                None => r == FileResponseKind::Ok200,
            },
        },
{
    if let Some(modsince) = if_modified_since {
        if file_is_newer_than_snapshot_time(mtime, modsince) {
            FileResponseKind::Ok200
        } else {
            FileResponseKind::NotModified304
        }
    } else if let Some(nonematch) = if_none_match {
        if str_eq(nonematch, etag) {
            FileResponseKind::NotModified304
        } else {
            FileResponseKind::Ok200
        }
    } else {
        FileResponseKind::Ok200
    }
}

/// The ETag of a file modified `mtime_seconds` after the epoch: the
/// decimal number in double quotes.
pub fn file_etag(mtime_seconds: u64) -> (r: String)
    ensures
        r@ == seq!['"'] + decimal(mtime_seconds as nat) + seq!['"'],
{
    let mut out = String::new();
    out.append("\"");
    push_decimal_u64(&mut out, mtime_seconds);
    out.append("\"");
    proof {
        reveal_strlit("\"");
    }
    assert(out@ =~= seq!['"'] + decimal(mtime_seconds as nat) + seq!['"']);
    out
}

/// How long (in seconds) a file that has not changed for `age_seconds`
/// may be cached: a tenth longer than that.
pub fn age_allowed(age_seconds: u64) -> (r: u128)
    ensures
        r == age_seconds + age_seconds / 10,
{
    age_seconds as u128 + (age_seconds / 10) as u128
}

/// The first time (in seconds after the epoch) that an HTTP date
/// cannot show: the start of the year 10000.
pub const HTTP_DATE_END: u64 = 253402300800;

/// The HTTP date (IMF-fixdate, as in "Sun, 06 Nov 1994 08:49:37 GMT")
/// for the time `secs` seconds after the epoch.
pub uninterp spec fn http_date_text(secs: u64) -> Seq<char>;

/// The time, in seconds after the epoch, that the HTTP date `s` stands
/// for, if it is one.
pub uninterp spec fn http_date_value(s: Seq<char>) -> Option<u64>;

/// The MIME type that rouille gives for a file name extension.
pub uninterp spec fn mime_of_extension(ext: Seq<char>) -> Seq<char>;

/// `httpdate::fmt_http_date` for the time `secs` seconds after the
/// epoch; it panics from the year 10000 on.
#[verifier::external_body]
fn fmt_http_date(secs: u64) -> (r: String)
    requires
        secs < HTTP_DATE_END,
    ensures
        r@ == http_date_text(secs),
{
    httpdate::fmt_http_date(UNIX_EPOCH + Duration::from_secs(secs))
}

/// `httpdate::parse_http_date`, in seconds after the epoch: it accepts
/// only dates from 1970 to 9999, in whole seconds.
#[verifier::external_body]
fn parse_http_date(s: &str) -> (r: Option<u64>)
    ensures
        r == http_date_value(s@),
        r matches Some(n) ==> n < HTTP_DATE_END,
{
    match httpdate::parse_http_date(s) {
        Ok(t) => t.duration_since(UNIX_EPOCH).ok().map(|d| d.as_secs()),
        Err(_) => None,
    }
}

/// `rouille::extension_to_mime`.
#[verifier::external_body]
fn extension_to_mime(ext: &str) -> (r: &'static str)
    ensures
        r@ == mime_of_extension(ext@),
{
    rouille::extension_to_mime(ext)
}

/// The MIME type of the file at `path`: by its extension, "text/plain"
/// for a file without one.
pub fn file_mimetype(path: &str) -> (r: &'static str)
    ensures
        match path_extension(path@) {
            Some(e) => r@ == mime_of_extension(e),
            None => r@ == "text/plain"@,
        },
{
    match std_path_extension(path) {
        Some(e) => extension_to_mime(e.as_str()),
        None => "text/plain",
    }
}

/// The response headers for a file of type `mimetype`, modified
/// `mtime_secs` after the epoch and unchanged for `age_secs` seconds:
/// its type, its modification time, how long it may be cached
/// (`age_allowed`), until when (the modification time plus that), and
/// its ETag.
pub fn file_headers(mimetype: &str, mtime_secs: u64, age_secs: u64) -> (r: Vec<(String, String)>)
    requires
        mtime_secs + age_secs + age_secs / 10 < HTTP_DATE_END,
    ensures
        r@.len() == 5,
        r@[0].0@ == "Content-type"@ && r@[0].1@ == mimetype@,
        r@[1].0@ == "Last-Modified"@ && r@[1].1@ == http_date_text(mtime_secs),
        r@[2].0@ == "Cache-Control"@ && r@[2].1@ == "max-age="@ + decimal(
            (age_secs + age_secs / 10) as nat,
        ),
        r@[3].0@ == "Expires"@ && r@[3].1@ == http_date_text(
            (mtime_secs + age_secs + age_secs / 10) as u64,
        ),
        r@[4].0@ == "ETag"@ && r@[4].1@ == seq!['"'] + decimal(mtime_secs as nat) + seq!['"'],
{
    let allowed = age_allowed(age_secs);
    let allowed64: u64 = allowed as u64;
    let mut cache = String::new();
    cache.append("max-age=");
    push_decimal_u64(&mut cache, allowed64);
    let mut v: Vec<(String, String)> = Vec::new();
    v.push(("Content-type".to_owned(), mimetype.to_owned()));
    v.push(("Last-Modified".to_owned(), fmt_http_date(mtime_secs)));
    v.push(("Cache-Control".to_owned(), cache));
    v.push(("Expires".to_owned(), fmt_http_date(mtime_secs + allowed64)));
    v.push(("ETag".to_owned(), file_etag(mtime_secs)));
    v
}

/// The answer to a request for a file modified at `mtime`, with ETag
/// `etag`, given the request's If-Modified-Since and If-None-Match
/// headers (as `file_response_kind` decides); an error where
/// If-Modified-Since holds no HTTP date.
pub fn file_response(
    mtime: TimeStamp,
    if_modified_since: Option<&str>,
    if_none_match: Option<&str>,
    etag: &str,
) -> (r: Result<FileResponseKind, FileHandlerError>)
    requires
        mtime.wf(),
    ensures
        match if_modified_since {
            Some(s) => match http_date_value(s@) {
                Some(secs) => r == Ok::<FileResponseKind, FileHandlerError>(
                    if mtime.total_nanos() - secs * 1_000_000_000 >= 1_000_000_000 {
                        FileResponseKind::Ok200
                    } else {
                        FileResponseKind::NotModified304
                    },
                ),
                None => r matches Err(FileHandlerError::InvalidIfModifiedSince),
            },
            None => r == Ok::<FileResponseKind, FileHandlerError>(
                match if_none_match {
                    Some(n) => if n@ == etag@ {
                        FileResponseKind::NotModified304
                    } else {
                        FileResponseKind::Ok200
                    },
                    None => FileResponseKind::Ok200,
                },
            ),
        },
{
    let modsince = match if_modified_since {
        Some(s) => match parse_http_date(s) {
            Some(secs) => Some(TimeStamp::new(secs as i64, 0)),
            None => {
                return Err(FileHandlerError::InvalidIfModifiedSince);
            },
        },
        None => None,
    };
    Ok(file_response_kind(mtime, modsince, if_none_match, etag))
}

/// How a segment changes the depth: ".." goes up one level, "." and
/// empty segments stay, any other goes down one.
pub open spec fn seg_step(s: Seq<char>) -> int {
    if s == "."@ || s == ""@ {
        0
    } else if s == ".."@ {
        -1
    } else {
        1
    }
}

/// The depth after all of `segs`, from depth `d`.
pub open spec fn depth_after(segs: Seq<Seq<char>>, d: int) -> int
    decreases segs.len(),
{
    if segs.len() == 0 {
        d
    } else {
        depth_after(segs.drop_first(), d + seg_step(segs[0]))
    }
}

/// Starting at depth `d`, no prefix of `segs` goes above depth 0.
pub open spec fn never_above_root(segs: Seq<Seq<char>>, d: int) -> bool
    decreases segs.len(),
{
    if segs.len() == 0 {
        true
    } else {
        d + seg_step(segs[0]) >= 0 && never_above_root(segs.drop_first(), d + seg_step(segs[0]))
    }
}

/// Canonicalizing fails exactly when some prefix holds more ".." than
/// ordinary segments (counting those already taken); otherwise the
/// result has as many segments as ordinary ones less "..".
pub proof fn lemma_canonical_depth(segs: Seq<Seq<char>>, acc: Seq<Seq<char>>)
    ensures
        canonical_from(segs, acc) is Some <==> never_above_root(segs, acc.len() as int),
        canonical_from(segs, acc) matches Some(v) ==> v.len() == depth_after(segs, acc.len() as int),
    decreases segs.len(),
{
    reveal_strlit(".");
    reveal_strlit("..");
    reveal_strlit("");
    assert(""@.len() == 0);
    assert("."@.len() == 1);
    assert(".."@.len() == 2);
    if segs.len() > 0 {
        let s = segs[0];
        if s == "."@ || s == ""@ {
            assert(s != ".."@);
            lemma_canonical_depth(segs.drop_first(), acc);
        } else if s == ".."@ {
            if acc.len() > 0 {
                lemma_canonical_depth(segs.drop_first(), acc.drop_last());
            }
        } else {
            lemma_canonical_depth(segs.drop_first(), acc.push(s));
        }
    }
}

/// No segment is ".", ".." or empty.
pub open spec fn clean_segments(v: Seq<Seq<char>>) -> bool {
    forall|i: int| 0 <= i < v.len() ==> #[trigger] v[i] != "."@ && v[i] != ".."@ && v[i] != ""@
}

/// A canonical path has no ".", ".." or empty segments, so it names a
/// place inside the directory it is taken relative to.
pub proof fn lemma_canonical_clean(segs: Seq<Seq<char>>, acc: Seq<Seq<char>>)
    requires
        clean_segments(acc),
    ensures
        canonical_from(segs, acc) matches Some(v) ==> clean_segments(v),
    decreases segs.len(),
{
    reveal_strlit(".");
    reveal_strlit("..");
    reveal_strlit("");
    if segs.len() > 0 {
        let s = segs[0];
        if s == "."@ {
            lemma_canonical_clean(segs.drop_first(), acc);
        } else if s == ""@ {
            assert(""@.len() == 0);
            assert(".."@.len() == 2);
            assert(s != ".."@);
            lemma_canonical_clean(segs.drop_first(), acc);
        } else if s == ".."@ {
            if acc.len() > 0 {
                assert(clean_segments(acc.drop_last())) by {
                    assert forall|i: int| 0 <= i < acc.drop_last().len() implies #[trigger] acc.drop_last()[i] != "."@
                        && acc.drop_last()[i] != ".."@ && acc.drop_last()[i] != ""@ by {
                        assert(acc.drop_last()[i] == acc[i]);
                    }
                }
                assert(canonical_from(segs, acc) == canonical_from(segs.drop_first(), acc.drop_last()));
                lemma_canonical_clean(segs.drop_first(), acc.drop_last());
            }
        } else {
            assert(canonical_from(segs, acc) == canonical_from(segs.drop_first(), acc.push(s)));
            assert(clean_segments(acc.push(s))) by {
                assert forall|i: int| 0 <= i < acc.push(s).len() implies #[trigger] acc.push(s)[i] != "."@
                    && acc.push(s)[i] != ".."@ && acc.push(s)[i] != ""@ by {
                    if i < acc.len() {
                        assert(acc.push(s)[i] == acc[i]);
                    }
                }
            }
            lemma_canonical_clean(segs.drop_first(), acc.push(s));
        }
    }
}

/// Resolving clean segments after `acc` only appends them.
proof fn lemma_canonical_append(v: Seq<Seq<char>>, acc: Seq<Seq<char>>)
    requires
        clean_segments(v),
    ensures
        canonical_from(v, acc) == Some(acc + v),
    decreases v.len(),
{
    if v.len() == 0 {
        assert(acc + v =~= acc);
    } else {
        assert(v[0] != "."@ && v[0] != ".."@ && v[0] != ""@);
        assert(clean_segments(v.drop_first())) by {
            assert forall|i: int| 0 <= i < v.drop_first().len() implies #[trigger] v.drop_first()[i] != "."@
                && v.drop_first()[i] != ".."@ && v.drop_first()[i] != ""@ by {
                assert(v.drop_first()[i] == v[i + 1]);
            }
        }
        lemma_canonical_append(v.drop_first(), acc.push(v[0]));
        assert(acc.push(v[0]) + v.drop_first() =~= acc + v);
    }
}

/// Canonicalizing a canonical path leaves it as it is.
pub proof fn lemma_canonical_idempotent(v: Seq<Seq<char>>)
    requires
        clean_segments(v),
    ensures
        canonical_from(v, Seq::empty()) == Some(v),
{
    lemma_canonical_append(v, Seq::empty());
    assert(Seq::<Seq<char>>::empty() + v =~= v);
}

} // verus!
