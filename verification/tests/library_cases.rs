use website::access_control::trimcheck::{
    trimcheck_email, trimcheck_groupname, trimcheck_password, trimcheck_username,
    InputCheckFailureKind,
};
use website::access_control::transaction::{
    transact_decide, Backoff, TransactError, TransactStep, TransactionError,
    TransactionErrorKind,
};
use website::access_control::types::{
    sessionid_hash, SessionData, SessionIdHasher, User, UserId, UserOrGroupName,
    UserOrGroupNameError,
};
use website::access_control::user_from_session_id;
use website::acontext::{arequest_lang, browser_lang, choose_lang, request_lang, Cookie, LangKey, NewCookieValue};
use website::ahtml::allocator::{att, opt_att, AllocKind, AllocatorType, AId, AVec, AhtmlError, AllocatorIdCounter, HtmlAllocator, Node};
use website::ahtml::flat::Flat;
use website::ahtml::meta::{Attribute, ElementMeta, MetaDb};
use website::ahtml::meta_static::meta_db_static;
use website::ahtml::types::AttributeType;
use website::ahtml::pool::AllocatorPool;
use website::ahtml::util::autolink;
use website::ahtml::util::softpre::{split_str, SoftPre, SoftPreMetas};
use website::apachelog::{combined_line, error_line, log_paths, log_time, panic_line, request_line, write_time};
use website::access_control::util::{unique_outcome, UniqueErrorKind};
use website::auri::path::{base, path_segments};
use website::blog::ParsedContextFrame as F;
use website::blog::breadcrumb::{breadcrumb, breadcrumb_html, BreadcrumbMetas};
use website::blog::post::{split_lead, LeadMetas};
use website::blog::{classify_entry, parse_month, parse_year, publish_date, EntryAction, ParsedDatePart};
use website::conslist::List;
use website::date_format::{date_format_httplike, date_format_httplike_switzerland, LocalTime};
use website::dt::indent;
use website::easyfiletype::EasyFileType;
use website::handler::{canonicalize_path, file_etag, file_headers, file_is_newer_than_snapshot_time, file_mimetype, file_response, file_response_kind, FileHandler, FileHandlerError, FileResponseKind};
use website::hash_util::{create_password_hash, verify_password};
use website::hostrouter::{HandlerChain, HostsRouter, RouteStep};
use website::http_request_method::{HttpRequestMethod, HttpRequestMethodSimple};
use website::lang::Lang;
use website::systime::TimeStamp;
use website::chj_util::time_guard::time_guard_value_enabled;
use website::webutils_simple::email_url;

fn element_meta(tag: &str) -> &'static ElementMeta {
    Box::leak(Box::new(ElementMeta {
        tag_name: tag.to_string(),
        has_global_attributes: true,
        has_closing_tag: true,
        attributes: vec![],
        allows_child_text: true,
        child_elements: vec![],
    }))
}

/// An element database with the global attributes `class` and `id`
/// (elements are checked against their own kinds).
fn checking_db() -> &'static MetaDb {
    Box::leak(Box::new(MetaDb {
        global_attribute_names: vec!["class".to_string(), "id".to_string()],
        elementmeta: vec![],
    }))
}

/// The `a` kind: `href` declared, text allowed.
fn link_meta() -> &'static ElementMeta {
    Box::leak(Box::new(ElementMeta {
        tag_name: "a".to_string(),
        has_global_attributes: true,
        has_closing_tag: true,
        attributes: vec![(
            "href".to_string(),
            Attribute { description: "link target".to_string(), ty: AttributeType::KString },
        )],
        allows_child_text: true,
        child_elements: vec![],
    }))
}

fn linked(s: &str) -> String {
    let mut counter = AllocatorIdCounter::new();
    let mut html = HtmlAllocator::new_with_metadb(1000, Some(checking_db()), &mut counter);
    let slice = autolink(&mut html, s, link_meta()).unwrap();
    html.slice_to_html_string(slice)
}

#[test]
fn util_t_() {
    assert_eq!(linked("http:// "), "http:// ");
    assert_eq!(linked("http://"), "http://");
    assert_eq!(linked(""), "");
    assert_eq!(linked("foo"), "foo");
    assert_eq!(linked("http"), "http");
    assert_eq!(linked("https"), "https");
    assert_eq!(linked("http:"), "http:");
    assert_eq!(linked("http:/"), "http:/");
    assert_eq!(linked("http://foo"), "<a href=\"http://foo\">http://foo</a>");
    assert_eq!(
        linked("There's http://foo.com there."),
        "There&#39;s <a href=\"http://foo.com\">http://foo.com</a> there."
    );
    assert_eq!(
        linked("There's http://foo.com. Yes."),
        "There&#39;s <a href=\"http://foo.com\">http://foo.com</a>. Yes."
    );
    assert_eq!(linked("http://foo.com."), "<a href=\"http://foo.com\">http://foo.com</a>.");
    assert_eq!(linked("hmhttp://foo.com."), "hmhttp://foo.com.");
}

#[test]
fn autolink_https_and_two_links() {
    assert_eq!(
        linked("a https://x.y/z b http://q"),
        "a <a href=\"https://x.y/z\">https://x.y/z</a> b <a href=\"http://q\">http://q</a>"
    );
}

#[test]
fn t_from() {
    assert_eq!(Lang::from("de"), Lang::De);
    assert_eq!(Lang::from("de_CH"), Lang::De);
    assert_eq!(Lang::from("de-CH"), Lang::De);
    assert_eq!(Lang::from("dee"), Lang::De);
    assert_eq!(Lang::from("dfe"), Lang::En);
    assert_eq!(Lang::maybe_from("dfe"), None);
    assert_eq!(Lang::maybe_from("d"), None);
}

#[test]
fn lang_codes() {
    assert_eq!(Lang::strs(), vec!["en", "de"]);
    assert_eq!(Lang::maybe_from_start("en"), Some(Lang::En));
    assert_eq!(Lang::maybe_from_start("e"), None);
    assert_eq!(Lang::default(), Lang::En);
}

#[test]
fn date_format_website_t_1() {
    assert_eq!(
        date_format_httplike_switzerland(1708967013, "en").unwrap(),
        "Mon, 26 Feb 2024 18:03:33 CET"
    );
    assert_eq!(
        date_format_httplike_switzerland(1708967013, "de").unwrap(),
        "Mo, 26. Feb 2024 18:03:33 CET"
    );
}

#[test]
fn date_format_website_t_2() {
    assert_eq!(
        date_format_httplike_switzerland(1714258620, "en").unwrap(),
        "Sun, 28 Apr 2024 00:57:00 CEST"
    );
    assert_eq!(
        date_format_httplike_switzerland(1714258620, "de").unwrap(),
        "So, 28. Apr 2024 00:57:00 CEST"
    );
}

#[test]
fn t_last_cet() {
    assert_eq!(
        date_format_httplike_switzerland(1711846799, "en").unwrap(),
        "Sun, 31 Mar 2024 01:59:59 CET"
    );
    assert_eq!(
        date_format_httplike_switzerland(1711846799, "de").unwrap(),
        "So, 31. Mär 2024 01:59:59 CET"
    );
}

#[test]
fn t_first_cest() {
    assert_eq!(
        date_format_httplike_switzerland(1711846800, "en").unwrap(),
        "Sun, 31 Mar 2024 03:00:00 CEST"
    );
    assert_eq!(
        date_format_httplike_switzerland(1711846800, "de").unwrap(),
        "So, 31. Mär 2024 03:00:00 CEST"
    );
}

#[test]
fn date_format_unknown_zone() {
    assert_eq!(date_format_httplike(0, "Nowhere/Nothing", Lang::En), None);
    assert_eq!(
        date_format_httplike(0, "UTC", Lang::En).unwrap(),
        "Thu, 1 Jan 1970 00:00:00 UTC"
    );
}

#[test]
fn log_time_and_paths() {
    let lt = LocalTime {
        weekday0: 2,
        day: 6,
        month0: 11,
        year: 2023,
        hour: 2,
        minute: 2,
        second: 47,
        offset_name: "UTC".to_string(),
    };
    let mut s = String::new();
    write_time(&mut s, &lt);
    assert_eq!(s, "06/Dec/2023:02:02:47 +0000");
    assert_eq!(
        log_paths("/var/log/x", true),
        ("/var/log/x/https_access.log".to_string(), "/var/log/x/https_error.log".to_string())
    );
    assert_eq!(
        log_paths("logs", false),
        ("logs/http_access.log".to_string(), "logs/http_error.log".to_string())
    );
}

fn kind_of<'a>(r: Result<&'a str, website::access_control::trimcheck::InputCheckFailure>) -> String {
    match r {
        Ok(s) => format!("ok {s}"),
        Err(e) => match e.kind() {
            InputCheckFailureKind::TooLong(f, r) => format!("toolong {f} {}..={}", r.start(), r.end()),
            InputCheckFailureKind::TooShort(f, r) => format!("tooshort {f} {}..={}", r.start(), r.end()),
            InputCheckFailureKind::ContainsNull(f) => format!("null {f}"),
            InputCheckFailureKind::MissingAt(f) => format!("missingat {f}"),
        },
    }
}

#[test]
fn trimcheck_errors() {
    assert_eq!(kind_of(trimcheck_username("  bob  ")), "ok bob");
    assert_eq!(kind_of(trimcheck_username("b")), "tooshort username 2..=20");
    // the upper end is excluded: 20 bytes are too long already
    assert_eq!(kind_of(trimcheck_username("abcdefghijklmnopqrstu")), "toolong username 2..=20");
    assert_eq!(kind_of(trimcheck_username(" abcdefghijklmnopqrst ")), "ok abcdefghijklmnopqrst");
    assert_eq!(kind_of(trimcheck_username("abcdefghijklmnopqrs")), "ok abcdefghijklmnopqrs");
    let g = "ä".repeat(11);
    assert_eq!(trimcheck_groupname(&g).unwrap(), g.as_str());
    let g21 = "ä".repeat(21);
    assert_eq!(kind_of(trimcheck_groupname(&g21)), "toolong groupname 1..=20");
    assert_eq!(kind_of(trimcheck_username("bo\0b")), "null username");
    assert_eq!(kind_of(trimcheck_groupname("g")), "ok g");
    assert_eq!(kind_of(trimcheck_password("short")), "tooshort password 8..=200");
    assert_eq!(kind_of(trimcheck_password("\u{a0}long enough\u{3000}")), "ok long enough");
    assert!(matches!(trimcheck_email("   "), Ok(None)));
    assert_eq!(trimcheck_email(" a@b.c ").unwrap(), Some("a@b.c"));
    match trimcheck_email("nobody") {
        Err(e) => assert!(matches!(e.kind(), InputCheckFailureKind::MissingAt("email"))),
        Ok(_) => panic!("expected an error"),
    }
}

#[test]
fn user_or_group_name() {
    assert_eq!(UserOrGroupName::new("abc12".to_string()).unwrap().to_string(), "abc12");
    match UserOrGroupName::new("ab-c".to_string()) {
        Err(UserOrGroupNameError::InvalidCharacter(i, c)) => {
            assert_eq!(i, 2);
            assert_eq!(c, '-');
        }
        Ok(_) => panic!("expected an error"),
    }
}

#[test]
fn session_hash() {
    let hasher = SessionIdHasher::new(b"secret".to_vec());
    let h1 = sessionid_hash(&hasher, "abc");
    let h2 = sessionid_hash(&hasher, "abd");
    assert_eq!(h1.len(), 32);
    assert_ne!(h1, h2);
    assert_eq!(h1, blake3::hash(b"secretabc").as_bytes().to_vec());
    let sd = SessionData::new(Some(3), "abc", 17, None, None, &hasher);
    assert_eq!(sd.sessionid_hash(), h1.as_slice());
    assert_eq!(sd.last_request_time, 17);
}

#[test]
fn password_hash_roundtrip() {
    let h = create_password_hash("correct horse").unwrap();
    assert!(h.starts_with("$argon2id$"));
    assert_eq!(verify_password("correct horse", &h).unwrap(), true);
    assert_eq!(verify_password("wrong horse", &h).unwrap(), false);
    assert!(verify_password("x", "not a phc string").is_err());
}

#[test]
fn backoff_schedule() {
    let mut b = Backoff::new();
    let mut sleeps = vec![];
    loop {
        let outcome: Result<Result<u8, &str>, TransactionError> = Ok(Err("busy"));
        match transact_decide(&mut b, outcome) {
            TransactStep::Sleep(s) => sleeps.push(s),
            TransactStep::Done(r) => {
                assert!(matches!(r, Err(TransactError::HandlerError("busy"))));
                break;
            }
        }
    }
    assert_eq!(sleeps.len(), 35);
    assert_eq!(sleeps[0], 500);
    assert_eq!(sleeps[1], 625);
    assert!(*sleeps.last().unwrap() < 1_000_000);
    let mut b = Backoff::new();
    let e = TransactionError(Box::new(TransactionErrorKind::NotConnected));
    assert!(matches!(
        transact_decide::<u8, ()>(&mut b, Err(e)),
        TransactStep::Done(Err(TransactError::TransactionError(_)))
    ));
    let e = TransactionError(Box::new(TransactionErrorKind::BeginError("locked".into())));
    assert!(matches!(transact_decide::<u8, ()>(&mut b, Err(e)), TransactStep::Sleep(500)));
    assert!(matches!(transact_decide::<u8, ()>(&mut b, Ok(Ok(7))), TransactStep::Done(Ok(7))));
}

#[test]
fn http_methods() {
    for m in [
        HttpRequestMethod::GET,
        HttpRequestMethod::HEAD,
        HttpRequestMethod::POST,
        HttpRequestMethod::PUT,
        HttpRequestMethod::DELETE,
        HttpRequestMethod::CONNECT,
        HttpRequestMethod::OPTIONS,
        HttpRequestMethod::TRACE,
        HttpRequestMethod::PATCH,
    ] {
        assert_eq!(HttpRequestMethod::from_str(m.as_str()).unwrap(), m);
        assert_eq!(m.to_grouped().to_http_request_method(), m);
        assert_eq!(m.is_post(), m == HttpRequestMethod::POST);
        assert!(m.description().contains(m.as_str()));
    }
    assert_eq!(HttpRequestMethod::from_str("get").unwrap_err().method, "get");
    assert!(HttpRequestMethodSimple::POST.is_post());
    assert!(!HttpRequestMethodSimple::HEAD.is_post());
}

#[test]
fn file_handling() {
    let t = |s, n| TimeStamp::new(s, n);
    assert!(file_is_newer_than_snapshot_time(t(101, 0), t(100, 0)));
    assert!(!file_is_newer_than_snapshot_time(t(100, 999_999_999), t(100, 0)));
    assert!(!file_is_newer_than_snapshot_time(t(99, 0), t(100, 0)));
    assert_eq!(file_etag(1700000000), "\"1700000000\"");
    assert_eq!(
        file_response_kind(t(200, 5), Some(t(200, 0)), None, "\"200\""),
        FileResponseKind::NotModified304
    );
    assert_eq!(
        file_response_kind(t(200, 5), None, Some("\"200\""), "\"200\""),
        FileResponseKind::NotModified304
    );
    assert_eq!(file_response_kind(t(200, 5), None, Some("\"1\""), "\"200\""), FileResponseKind::Ok200);
    assert_eq!(file_response_kind(t(200, 5), None, None, "\"200\""), FileResponseKind::Ok200);
    let fh = FileHandler::new("/srv/static".to_string());
    assert_eq!(
        fh.target_path(HttpRequestMethodSimple::GET, &["a", "..", "b", "c.css"]).unwrap(),
        Some("/srv/static/b/c.css".to_string())
    );
    assert_eq!(fh.target_path(HttpRequestMethodSimple::GET, &["..", "x"]).unwrap(), None);
    assert_eq!(fh.target_path(HttpRequestMethodSimple::GET, &["a", ".."]).unwrap(), None);
    assert!(fh.target_path(HttpRequestMethodSimple::POST, &["a"]).is_err());
}

#[test]
fn hosts_router() {
    let mut hr: HostsRouter<u32> = HostsRouter::new(Some(0));
    hr.add("Example.ORG", 1).add("other.net", 2);
    assert_eq!(hr.get("example.org"), Some(&1));
    assert_eq!(hr.get("EXAMPLE.org"), Some(&1));
    hr.add("example.org", 3);
    assert_eq!(hr.get("example.org"), Some(&3));
    assert_eq!(hr.get("other.net"), Some(&2));
    assert_eq!(hr.get("unknown"), Some(&0));
    let empty: HostsRouter<u32> = HostsRouter::new(None);
    assert_eq!(empty.get("x"), None);
}

#[test]
fn handler_chain_order() {
    let mut c = HandlerChain::new(2, true);
    assert_eq!(c.step(), RouteStep::CallHandler(0));
    assert_eq!(c.step(), RouteStep::CallHandler(1));
    assert_eq!(c.step(), RouteStep::CallFallback);
    assert_eq!(c.step(), RouteStep::NotFound);
    let mut c = HandlerChain::new(0, false);
    assert_eq!(c.step(), RouteStep::NotFound);
}

#[test]
fn lang_choice_and_cookie() {
    let mut cookie = Cookie::new(LangKey, Some("de".to_string()));
    assert_eq!(cookie.value(), "de");
    assert_eq!(cookie.key(), "lang");
    // path says English, cookie German, browser English: clear the cookie
    let l = choose_lang(Some(Lang::En), Some(Lang::De), Some(Lang::En), &mut cookie);
    assert_eq!(l, Some(Lang::En));
    assert!(matches!(cookie.take_out_value(), NewCookieValue::Deleted));
    assert!(matches!(cookie.take_out_value(), NewCookieValue::Unchanged));
    // path says German, no cookie, browser English: set it
    let mut cookie = Cookie::new(LangKey, None);
    assert_eq!(cookie.value(), "en");
    let l = choose_lang(Some(Lang::De), None, Some(Lang::En), &mut cookie);
    assert_eq!(l, Some(Lang::De));
    match cookie.take_out_value() {
        NewCookieValue::Updated(v, age) => {
            assert_eq!(v, "de");
            assert_eq!(age, 60 * 60 * 24 * 30 * 2);
        }
        _ => panic!("expected an update"),
    }
    // the cookie's language stands
    let mut cookie = Cookie::new(LangKey, Some("de".to_string()));
    assert_eq!(choose_lang(None, Some(Lang::De), Some(Lang::En), &mut cookie), Some(Lang::De));
    assert!(matches!(cookie.take_out_value(), NewCookieValue::Unchanged));
}

#[test]
fn blog_layout() {
    assert_eq!(parse_year("2023"), Some(ParsedDatePart::Integer(2023)));
    assert_eq!(parse_year("1979"), None);
    assert_eq!(parse_year("+999"), None);
    assert_eq!(parse_year("23"), None);
    assert_eq!(parse_month("02"), Some(ParsedDatePart::Integer(2)));
    assert_eq!(parse_month("+2"), Some(ParsedDatePart::Integer(2)));
    assert_eq!(parse_month("13"), None);
    assert_eq!(parse_month("1a"), None);
    let y = List::Pair(F { filename: "2024", parseddatepart: ParsedDatePart::Integer(2024) }, &List::Null);
    let m = List::Pair(F { filename: "02", parseddatepart: ParsedDatePart::Integer(2) }, &y);
    assert!(matches!(
        classify_entry("29", "b/2024/02/29", EasyFileType::Dir, &m),
        EntryAction::Recurse(ParsedDatePart::Date(d)) if d.year == 2024 && d.month == 2 && d.day == 29
    ));
    assert!(matches!(classify_entry("30", "b/2024/02/30", EasyFileType::Dir, &m), EntryAction::InvalidDir(_)));
    let y3 = List::Pair(F { filename: "2023", parseddatepart: ParsedDatePart::Integer(2023) }, &List::Null);
    let m3 = List::Pair(F { filename: "02", parseddatepart: ParsedDatePart::Integer(2) }, &y3);
    assert!(matches!(classify_entry("29", "b/2023/02/29", EasyFileType::Dir, &m3), EntryAction::InvalidDir(_)));
    assert!(matches!(classify_entry("x", "b/x", EasyFileType::Dir, &List::Null), EntryAction::InvalidDir(_)));
    match classify_entry("post.md", "b/post.md", EasyFileType::File, &List::Null) {
        EntryAction::Post(n) => assert_eq!(n, "post.html"),
        _ => panic!("expected a post"),
    }
    assert!(matches!(classify_entry("img.png", "b/img.png", EasyFileType::File, &List::Null), EntryAction::Skip));
    assert!(matches!(classify_entry("l", "b/l", EasyFileType::Symlink, &List::Null), EntryAction::Skip));
    assert!(publish_date(&List::Null).is_err());
    assert!(publish_date(&m).is_err());
}

#[test]
fn small_helpers() {
    assert_eq!(email_url("a@b.c"), "mailto:a@b.c");
    assert_eq!(email_url("mailto:a@b.c"), "mailto:a@b.c");
    assert_eq!(email_url("https://x"), "https://x");
    assert_eq!(indent(3), "   ");
    assert_eq!(indent(0), "");
    assert!(!time_guard_value_enabled(None));
    assert!(!time_guard_value_enabled(Some(b"off")));
    assert!(!time_guard_value_enabled(Some(b"")));
    assert!(time_guard_value_enabled(Some(b"1")));
    assert!(time_guard_value_enabled(Some(b"yes")));
    assert_eq!(base("foo.md"), Some("foo"));
    assert_eq!(path_segments("/a//b/"), vec!["a", "b"]);
    assert_eq!(path_segments(""), Vec::<&str>::new());
}

#[test]
fn allocator_pool_reuse() {
    let mut pool = AllocatorPool::new_with_metadb(100, None);
    let mut a = pool.get();
    a.text("x").unwrap();
    let gen0 = a.regionid();
    pool.put_back(a);
    let b = pool.get();
    assert_eq!(b.nodes_len(), 0);
    assert_ne!(b.regionid(), gen0);
}

fn void_element_meta(tag: &str) -> &'static ElementMeta {
    Box::leak(Box::new(ElementMeta {
        tag_name: tag.to_string(),
        has_global_attributes: true,
        has_closing_tag: false,
        attributes: vec![],
        allows_child_text: false,
        child_elements: vec![],
    }))
}

fn soft_pre_metas() -> SoftPreMetas {
    SoftPreMetas { a: element_meta("a"), br: void_element_meta("br"), div: element_meta("div") }
}

/// Kinds for `SoftPre::format` under `checking_db`: the `div` allows
/// text, links and line breaks.
fn checked_soft_pre_metas() -> SoftPreMetas {
    let div = Box::leak(Box::new(ElementMeta {
        tag_name: "div".to_string(),
        has_global_attributes: true,
        has_closing_tag: true,
        attributes: vec![],
        allows_child_text: true,
        child_elements: vec!["a".to_string(), "br".to_string()],
    }));
    SoftPreMetas { a: link_meta(), br: void_element_meta("br"), div }
}

#[test]
fn t_softpre() {
    let softpre = SoftPre::default();
    let metas = checked_soft_pre_metas();
    let mut counter = AllocatorIdCounter::new();
    let mut html = HtmlAllocator::new_with_metadb(1000, Some(checking_db()), &mut counter);
    let mut t = |s: &str| -> String {
        let id = softpre.format(s, &mut html, &metas).unwrap();
        html.to_html_fragment_string(id)
    };
    assert_eq!(t("foo bar"), "<div class=\"soft_pre\">foo bar<br></div>");
    assert_eq!(
        t("foo bar\n\tbaz"),
        "<div class=\"soft_pre\">foo bar<br>\u{a0}\u{a0}\u{a0}\u{a0}\u{a0}\u{a0}\u{a0}\u{a0}baz<br></div>"
    );
}

#[test]
fn softpre_links_and_options() {
    let metas = soft_pre_metas();
    let mut counter = AllocatorIdCounter::new();
    let mut html = HtmlAllocator::new_with_metadb(1000, None, &mut counter);
    let linking = SoftPre::default();
    let id = linking.format("see http://x.org\tnow\n", &mut html, &metas).unwrap();
    assert_eq!(
        html.to_html_string(id, false),
        "<div class=\"soft_pre\">see <a href=\"http://x.org\">http://x.org</a>\u{a0}\u{a0}\u{a0}\u{a0}\u{a0}\u{a0}\u{a0}\u{a0}now<br><br></div>"
    );
    let plain = SoftPre { tabs_to_nbsp: None, autolink: false, line_separator: "||" };
    let id = plain.format("a\tb||http://y||", &mut html, &metas).unwrap();
    assert_eq!(
        html.to_html_string(id, false),
        "<div class=\"soft_pre\">a\tb<br>http://y<br><br></div>"
    );
    let two_tabs = SoftPre { tabs_to_nbsp: Some(2), autolink: false, line_separator: "\n" };
    let id = two_tabs.format("\t", &mut html, &metas).unwrap();
    assert_eq!(html.to_html_string(id, false), "<div class=\"soft_pre\">\u{a0}\u{a0}<br></div>");
}

#[test]
fn softpre_out_of_memory() {
    let metas = soft_pre_metas();
    let mut counter = AllocatorIdCounter::new();
    let mut html = HtmlAllocator::new_with_metadb(4, None, &mut counter);
    assert!(SoftPre::default().format("a\nb\nc\nd\ne", &mut html, &metas).is_err());
}

#[test]
fn split_str_cases() {
    assert_eq!(split_str("a\nb\n", "\n"), vec!["a", "b", ""]);
    assert_eq!(split_str("", "\n"), vec![""]);
    assert_eq!(split_str("abc", ""), vec!["", "a", "b", "c", ""]);
    assert_eq!(split_str("a--b---c", "--"), vec!["a", "b", "-c"]);
}

#[test]
fn apachelog_lines() {
    assert_eq!(log_time(0), Some("01/Jan/1970:00:00:00 +0000".to_string()));
    assert_eq!(log_time(1701828167), Some("06/Dec/2023:02:02:47 +0000".to_string()));
    let l = combined_line(
        "1.2.3.4",
        None,
        "06/Dec/2023:02:02:47 +0000",
        "GET /login.jsp HTTP/1.1",
        404,
        Some(447),
        None,
        Some("Bot \"x\""),
        "1.5ms",
    );
    assert_eq!(
        l,
        "1.2.3.4 - - [06/Dec/2023:02:02:47 +0000] \"GET /login.jsp HTTP/1.1\" 404 447 \"-\" \"Bot \\\"x\\\"\" 1.5ms\n"
    );
    let l = combined_line("::1", Some("chris"), "T", "GET / HTTP/1.1", 200, None, Some("http://a/"), None, "2s");
    assert_eq!(l, "::1 - chris [T] \"GET / HTTP/1.1\" 200 0 \"http://a/\" \"-\" 2s\n");
    assert_eq!(
        error_line("T", "5.6.7.8", "GET /x HTTP/1.1", "3ms", "no such file"),
        "[T] [error] [client 5.6.7.8] \"GET /x HTTP/1.1\" 3ms: no such file\n"
    );
    assert_eq!(panic_line("GET /y HTTP/1.1", "1s"), "[panic] handling \"GET /y HTTP/1.1\" after 1s\n");
    assert_eq!(request_line("GET", "/a?b=c"), "GET /a?b=c");
}

#[test]
fn unique_outcome_cases() {
    assert!(matches!(unique_outcome::<u32, _>("s", None, false, || "a".to_string()), Ok(None)));
    assert!(matches!(unique_outcome("s", Some(7u32), false, || "a".to_string()), Ok(Some(7))));
    match unique_outcome("by_name", Some(7u32), true, || "(\"x\",)".to_string()) {
        Err(e) => match *e.0 {
            UniqueErrorKind::MoreThanOne { statement_name, arguments } => {
                assert_eq!(statement_name, "by_name");
                assert_eq!(arguments, "(\"x\",)");
            }
            _ => panic!("wrong error"),
        },
        Ok(_) => panic!("expected an error"),
    }
}

fn breadcrumb_metas() -> BreadcrumbMetas {
    BreadcrumbMetas {
        div: element_meta("div"),
        ul: element_meta("ul"),
        li: element_meta("li"),
        a: element_meta("a"),
    }
}

#[test]
fn breadcrumb_links_up() {
    let metas = breadcrumb_metas();
    let mut counter = AllocatorIdCounter::new();
    let mut html = HtmlAllocator::new_with_metadb(1000, None, &mut counter);
    let top = List::Null;
    let year = List::Pair(F { filename: "2023", parseddatepart: ParsedDatePart::Integer(2023) }, &top);
    let month = List::Pair(F { filename: "10", parseddatepart: ParsedDatePart::Integer(10) }, &year);
    let b = breadcrumb(&mut html, &month, &metas).unwrap();
    assert_eq!(
        b.with_slash(false).as_str(),
        "<div class=\"breadcrumb\"><ul><li class=\"breadcrumb_item\"><a href=\"./..\">2023</a></li><li class=\"breadcrumb_item\"><a href=\".\">10</a></li></ul></div>"
    );
    assert_eq!(
        b.with_slash(true).as_str(),
        "<div class=\"breadcrumb\"><ul><li class=\"breadcrumb_item\"><a href=\"../..\">2023</a></li><li class=\"breadcrumb_item\"><a href=\"..\">10</a></li></ul></div>"
    );
    let empty = breadcrumb_html(&mut html, &top, ".", &metas).unwrap();
    assert_eq!(empty.as_str(), "<div class=\"breadcrumb\"><ul></ul></div>");
}

fn el(html: &mut HtmlAllocator, meta: &'static ElementMeta, kids: &[AId<Node>]) -> AId<Node> {
    let mut v: AVec<Node> = html.new_vec();
    for k in kids {
        v.push(html, *k).unwrap();
    }
    let atts = html.empty_slice();
    html.new_element(meta, atts, v.as_slice()).unwrap()
}

fn body_of(html: &mut HtmlAllocator, kids: &[AId<Node>]) -> website::ahtml::allocator::ASlice<Node> {
    let mut v: AVec<Node> = html.new_vec();
    for k in kids {
        v.push(html, *k).unwrap();
    }
    v.as_slice()
}

#[test]
fn split_lead_cases() {
    let metas = LeadMetas { h2: element_meta("h2"), p: element_meta("p"), div: element_meta("div") };
    let mut counter = AllocatorIdCounter::new();
    let mut html = HtmlAllocator::new_with_metadb(1000, None, &mut counter);

    let t = html.str("lead").unwrap();
    let p = el(&mut html, metas.p, &[t]);
    let x = html.str("x").unwrap();
    let ht = html.str("H").unwrap();
    let h = el(&mut html, metas.h2, &[ht]);
    let y = html.str("y").unwrap();
    let body = body_of(&mut html, &[p, x, h, y]);
    let (lead, main) = split_lead(&mut html, body, &metas).unwrap();
    assert_eq!(html.to_html_string(lead.unwrap(), false), "<div><p>lead</p>x</div>");
    assert_eq!(html.to_html_string(main, false), "<div><h2>H</h2>y</div>");

    let r = html.str("rest").unwrap();
    let body = body_of(&mut html, &[p, r]);
    let (lead, main) = split_lead(&mut html, body, &metas).unwrap();
    assert_eq!(html.to_html_string(lead.unwrap(), false), "<p>lead</p>");
    assert_eq!(html.to_html_string(main, false), "<div>rest</div>");

    let body = body_of(&mut html, &[x, p]);
    let (lead, main) = split_lead(&mut html, body, &metas).unwrap();
    assert!(lead.is_none());
    assert_eq!(html.to_html_string(main, false), "<div>x<p>lead</p></div>");

    let body = html.empty_slice();
    let (lead, main) = split_lead(&mut html, body, &metas).unwrap();
    assert!(lead.is_none());
    assert_eq!(html.to_html_string(main, false), "<div></div>");
}

#[test]
fn filter_map_and_flat_map() {
    let mut counter = AllocatorIdCounter::new();
    let mut html = HtmlAllocator::new_with_metadb(1000, None, &mut counter);
    let a = html.str("a").unwrap();
    let b = html.str("b").unwrap();
    let c = html.str("c").unwrap();
    let body = body_of(&mut html, &[a, b, c]);
    let v = body
        .try_filter_map(
            |id: AId<Node>| if id.bare_id() == b.bare_id() { Ok(None) } else { Ok(Some(id)) },
            None,
            &mut html,
        )
        .unwrap();
    assert_eq!(html.slice_to_html_string(v.as_slice()), "ac");
    let v = body
        .try_flat_map(
            |id: AId<Node>| if id.bare_id() == a.bare_id() { Ok(Flat::Two(id, id)) } else { Ok(Flat::One(id)) },
            Some(1),
            &mut html,
        )
        .unwrap();
    assert_eq!(html.slice_to_html_string(v.as_slice()), "aabc");
    let v = body.try_flat_map(|_id: AId<Node>| Ok(Flat::Slice(body)), None, &mut html).unwrap();
    assert_eq!(html.slice_to_html_string(v.as_slice()), "abcabcabc");
    let e = body.try_filter_map(|_id: AId<Node>| Err(AhtmlError::NotAnElement), None, &mut html);
    assert!(matches!(e, Err(AhtmlError::NotAnElement)));
}

#[test]
fn file_headers_and_dates() {
    assert_eq!(file_mimetype("/srv/www/index.html"), "text/html; charset=utf8");
    assert_eq!(file_mimetype("/srv/www/img.png"), "image/png");
    assert_eq!(file_mimetype("/srv/www/README"), "text/plain");
    let h = file_headers("image/png", 784111777, 10);
    let h: Vec<(&str, &str)> = h.iter().map(|(k, v)| (k.as_str(), v.as_str())).collect();
    assert_eq!(
        h,
        vec![
            ("Content-type", "image/png"),
            ("Last-Modified", "Sun, 06 Nov 1994 08:49:37 GMT"),
            ("Cache-Control", "max-age=11"),
            ("Expires", "Sun, 06 Nov 1994 08:49:48 GMT"),
            ("ETag", "\"784111777\""),
        ]
    );
    let date = Some("Sun, 06 Nov 1994 08:49:37 GMT");
    assert!(matches!(
        file_response(TimeStamp::new(784111777, 500), date, None, "\"1\""),
        Ok(FileResponseKind::NotModified304)
    ));
    assert!(matches!(
        file_response(TimeStamp::new(784111778, 0), date, None, "\"1\""),
        Ok(FileResponseKind::Ok200)
    ));
    assert!(matches!(
        file_response(TimeStamp::new(784111778, 0), Some("yesterday"), None, "\"1\""),
        Err(FileHandlerError::InvalidIfModifiedSince)
    ));
    assert!(matches!(
        file_response(TimeStamp::new(784111778, 0), None, Some("\"1\""), "\"1\""),
        Ok(FileResponseKind::NotModified304)
    ));
    assert!(matches!(
        file_response(TimeStamp::new(784111778, 0), None, None, "\"1\""),
        Ok(FileResponseKind::Ok200)
    ));
}

fn sample_user() -> User {
    User {
        id: Some(UserId(7)),
        username: UserOrGroupName::new("chris".to_string()).unwrap(),
        email: None,
        name: "Chris".to_string(),
        surname: "J".to_string(),
        hashed_pass: String::new(),
    }
}

#[test]
fn user_from_session_lookups() {
    let hasher = SessionIdHasher::new(b"secret".to_vec());
    let expected = sessionid_hash(&hasher, "abc");
    let r = user_from_session_id(
        "abc",
        &hasher,
        |h: &[u8]| {
            assert_eq!(h, expected.as_slice());
            Ok(Some(SessionData::from_stored(Some(1), h.to_vec(), 0, Some(UserId(7)), None)))
        },
        |id: i64| {
            assert_eq!(id, 7);
            Ok(Some(sample_user()))
        },
    )
    .unwrap();
    assert_eq!(r.unwrap().name, "Chris");
    let r = user_from_session_id(
        "abc",
        &hasher,
        |h: &[u8]| Ok(Some(SessionData::from_stored(None, h.to_vec(), 0, None, None))),
        |_id: i64| -> Result<Option<User>, _> { panic!("no user to look up") },
    )
    .unwrap();
    assert!(r.is_none());
    let r = user_from_session_id("abc", &hasher, |_h: &[u8]| Ok(None), |_id: i64| Ok(Some(sample_user())))
        .unwrap();
    assert!(r.is_none());
}

#[test]
fn iterate_nodes_and_attributes() {
    let mut counter = AllocatorIdCounter::new();
    let mut html = HtmlAllocator::new_with_metadb(1000, None, &mut counter);
    let a = html.str("a").unwrap();
    let b = html.str("b").unwrap();
    let body = body_of(&mut html, &[a, b, a]);
    let texts: Vec<String> = body
        .iter_node(&html)
        .into_iter()
        .map(|n| match n {
            Node::String(s) => s.clone(),
            _ => panic!("text expected"),
        })
        .collect();
    assert_eq!(texts, vec!["a", "b", "a"]);
    let k = html.attribute("k", "v").unwrap();
    let mut atts: AVec<(String, String)> = html.new_vec();
    atts.push(&mut html, k).unwrap();
    let pairs = atts.as_slice().iter_att(&html);
    assert_eq!(pairs.len(), 1);
    assert_eq!((pairs[0].0.as_str(), pairs[0].1.as_str()), ("k", "v"));
}

#[test]
fn escaped_text_has_no_markup() {
    let mut counter = AllocatorIdCounter::new();
    let html = HtmlAllocator::new_with_metadb(10, None, &mut counter);
    let e = html.html_escape("<a href='x' title=\"y\">&</a>");
    assert_eq!(e, "&lt;a href=&#39;x&#39; title=&quot;y&quot;&gt;&amp;&lt;/a&gt;");
    assert!(!e.contains('<') && !e.contains('>') && !e.contains('"') && !e.contains('\''));
}

#[test]
fn canonical_path_is_stable() {
    let p = ["a", ".", "", "b", "..", "c", ""];
    let once = canonicalize_path(&p).unwrap();
    assert_eq!(once, vec!["a", "c"]);
    let twice = canonicalize_path(&once).unwrap();
    assert_eq!(twice, once);
    assert!(canonicalize_path(&["a", "..", ".."]).is_none());
}

#[test]
fn meta_db_as_source_text() {
    let db = MetaDb {
        global_attribute_names: vec!["title".to_string(), "id".to_string(), "title".to_string()],
        elementmeta: vec![("p".to_string(), ElementMeta {
            tag_name: "p".to_string(),
            has_global_attributes: true,
            has_closing_tag: true,
            attributes: vec![
                ("b".to_string(), Attribute { description: "B".to_string(), ty: AttributeType::Bool }),
                (
                    "a".to_string(),
                    Attribute {
                        description: "A".to_string(),
                        ty: AttributeType::Enumerable(vec!["x".to_string(), "y".to_string()]),
                    },
                ),
            ],
            allows_child_text: true,
            child_elements: vec!["span".to_string(), "b".to_string()],
        })],
    };
    assert_eq!(
        meta_db_static(&db),
        "StaticMetaDb {\n    global_attribute_names: StaticSet(&[\n\"id\",\n\"title\"])\n,\n    elementmeta: StaticMap(&[\n(\"p\", StaticElementMeta {\n    tag_name: \"p\"\n,\n    has_global_attributes: true\n,\n    has_closing_tag: true\n,\n    attributes: StaticMap(&[\n(\"a\", StaticAttribute {\n    description: \"A\",\n    ty: StaticAttributeType::Enumerable(StaticVec(&[\n\"x\",\n\"y\"])\n)}\n),\n(\"b\", StaticAttribute {\n    description: \"B\",\n    ty: StaticAttributeType::Bool}\n)])\n,\n    allows_child_text: true\n,\n    child_elements: StaticSet(&[\n\"b\",\n\"span\"])\n}\n)])\n}\n"
    );
}

#[test]
fn meta_db_source_keeps_last_of_equal_keys() {
    let db = MetaDb {
        global_attribute_names: vec![],
        elementmeta: vec![("i".to_string(), ElementMeta {
            tag_name: "i".to_string(),
            has_global_attributes: false,
            has_closing_tag: false,
            attributes: vec![
                ("a".to_string(), Attribute { description: "first".to_string(), ty: AttributeType::Integer }),
                (
                    "a".to_string(),
                    Attribute {
                        description: "second".to_string(),
                        ty: AttributeType::Identifier("q".to_string()),
                    },
                ),
            ],
            allows_child_text: false,
            child_elements: vec![],
        })],
    };
    let s = meta_db_static(&db);
    assert!(s.contains("description: \"second\",\n    ty: StaticAttributeType::Identifier(\"q\")}\n"));
    assert!(!s.contains("first"));
    assert!(s.starts_with("StaticMetaDb {\n    global_attribute_names: StaticSet(&[\n])\n"));
}

#[test]
fn attribute_items_and_text_nodes() {
    assert_eq!(att("class", "x"), Some(("class".to_string(), "x".to_string())));
    assert_eq!(opt_att("alt", Some("y")), Some(("alt".to_string(), "y".to_string())));
    assert_eq!(opt_att("alt", None), None);
    let mut counter = AllocatorIdCounter::new();
    let mut html = HtmlAllocator::new_with_metadb(10, None, &mut counter);
    let n = html.nbsp().unwrap();
    assert_eq!(html.to_html_string(n, false), "\u{a0}");
    let k = html.kstring("a<b".to_string()).unwrap();
    assert_eq!(html.to_html_string(k, false), "a&lt;b");
}

#[test]
fn meta_db_source_uses_entry_names() {
    let db = MetaDb {
        global_attribute_names: vec![],
        elementmeta: vec![
            ("para".to_string(), ElementMeta {
                tag_name: "p".to_string(),
                has_global_attributes: false,
                has_closing_tag: true,
                attributes: vec![],
                allows_child_text: true,
                child_elements: vec![],
            }),
            ("em".to_string(), ElementMeta {
                tag_name: "em".to_string(),
                has_global_attributes: false,
                has_closing_tag: true,
                attributes: vec![],
                allows_child_text: true,
                child_elements: vec![],
            }),
        ],
    };
    let s = meta_db_static(&db);
    let em_at = s.find("(\"em\", StaticElementMeta {\n    tag_name: \"em\"").unwrap();
    let para_at = s.find("(\"para\", StaticElementMeta {\n    tag_name: \"p\"").unwrap();
    assert!(em_at < para_at);
}

fn merged(tag: &str, struct_name: &str, children: &[&str]) -> website::ahtml::types::MergedElement {
    website::ahtml::types::MergedElement {
        tag_name: tag.to_string(),
        struct_name: struct_name.to_string(),
        submodule_name: String::new(),
        mdn_link: String::new(),
        has_global_attributes: true,
        has_closing_tag: true,
        attributes: vec![],
        dom_interface: String::new(),
        content_categories: vec![],
        permitted_child_elements: children.iter().map(|c| c.to_string()).collect(),
    }
}

#[test]
fn meta_db_keeps_entry_names_and_resolves_children() {
    let ts = vec![
        ("div".to_string(), merged("div", "Div", &["Text", "P"])),
        ("p".to_string(), merged("p", "P", &["Text"])),
    ];
    let db = website::ahtml::meta::build_meta_db(ts).unwrap();
    assert_eq!(db.elementmeta.len(), 2);
    assert_eq!(db.elementmeta[0].0, "div");
    assert_eq!(db.elementmeta[0].1.child_elements, vec!["p".to_string()]);
    assert!(db.elementmeta[0].1.allows_child_text);
    assert_eq!(db.elementmeta[1].0, "p");
    assert!(db.elementmeta[1].1.child_elements.is_empty());
    let bad = vec![("div".to_string(), merged("div", "Div", &["Span"]))];
    let e = website::ahtml::meta::build_meta_db(bad).unwrap_err();
    assert_eq!(e.name, "Span");
}

#[test]
fn allocation_kinds() {
    assert_eq!(<(String, String) as AllocatorType>::allockind(), AllocKind::Att);
    assert_eq!(<Node as AllocatorType>::allockind(), AllocKind::Node);
    assert_eq!(<AId<Node> as AllocatorType>::allockind(), AllocKind::Id);
}

#[test]
fn suffix_allows_word_characters() {
    assert_eq!(website::auri::path::suffix("foo.m_d"), Some("m_d"));
    assert_eq!(website::auri::path::suffix("foo.m-d"), None);
}

#[test]
fn autolink_needs_a_host() {
    assert_eq!(linked("http://. x"), "http://. x");
    assert_eq!(linked("see https://: now"), "see https://: now");
    assert_eq!(linked("http://a."), "<a href=\"http://a\">http://a</a>.");
}

#[test]
fn local_time_past_the_range_is_none() {
    // The last second chrono represents, in UTC; Swiss time is an hour
    // later and beyond the range.
    assert_eq!(date_format_httplike_switzerland(8210298412799, "en"), None);
    assert_eq!(date_format_httplike(8210298412799 + 1, "UTC", website::lang::Lang::En), None);
    assert!(date_format_httplike(253402300799, "Europe/Zurich", website::lang::Lang::En).is_some());
}

#[test]
fn u24_takes_all_24_bit_values() {
    use_u24();
}

fn use_u24() {
    assert_eq!(website::chj_util::u24::U24::new(0xFFFFFF), website::chj_util::u24::U24(255, 255, 255));
    assert_eq!(website::chj_util::u24::U24::new(0x123456), website::chj_util::u24::U24(0x56, 0x34, 0x12));
    assert_eq!(website::chj_util::u24::U24MAX, 0xFFFFFF);
}

#[test]
fn checks_refuse_undeclared_link_attribute() {
    let mut counter = AllocatorIdCounter::new();
    let mut html = HtmlAllocator::new_with_metadb(1000, Some(checking_db()), &mut counter);
    assert!(matches!(
        autolink(&mut html, "go http://x.org", element_meta("a")),
        Err(AhtmlError::InvalidAttribute { .. })
    ));
    let plain = autolink(&mut html, "no links here", element_meta("a")).unwrap();
    assert_eq!(html.slice_to_html_string(plain), "no links here");
    let metas = checked_soft_pre_metas();
    let id = SoftPre::default().format("see http://x.org\nok", &mut html, &metas).unwrap();
    assert_eq!(
        html.to_html_string(id, false),
        "<div class=\"soft_pre\">see <a href=\"http://x.org\">http://x.org</a><br>ok<br></div>"
    );
}

#[test]
fn query_string_parts() {
    use_query_parts();
}

fn use_query_parts() {
    let t = |s: &str, q: &[(&str, &str)]| assert_eq!(website::auri::query::query_parts(s), q.to_vec());
    t("", &[]);
    t("foo", &[("foo", "")]);
    t("foo=1", &[("foo", "1")]);
    t("=1&&2=", &[("", "1"), ("2", "")]);
    t("foo=1&bar=2", &[("foo", "1"), ("bar", "2")]);
    t("foo=1%26&ba%72=%202", &[("foo", "1%26"), ("ba%72", "%202")]);
    t("a=b=c", &[("a", "b=c")]);
}

#[test]
fn lang_from_request_headers() {
    assert_eq!(browser_lang(None), None);
    assert_eq!(browser_lang(Some("de-CH, de;q=0.9, en;q=0.5")), Some(Lang::De));
    assert_eq!(browser_lang(Some("en-US,en;q=0.9,de;q=0.8")), Some(Lang::En));
    assert_eq!(browser_lang(Some("fr")), None);
    // no path language, no cookie: the browser's choice, no cookie needed
    let mut cookie = Cookie::new(LangKey, None);
    assert_eq!(request_lang(None, None, Some("de"), &mut cookie), Some(Lang::De));
    assert!(matches!(cookie.take_out_value(), NewCookieValue::Deleted));
    // the cookie's language beats the browser's
    let mut cookie = Cookie::new(LangKey, Some("en".to_string()));
    assert_eq!(request_lang(None, Some("en"), Some("de"), &mut cookie), Some(Lang::En));
    assert!(matches!(cookie.take_out_value(), NewCookieValue::Unchanged));
    // a language in the path is kept in the cookie
    let mut cookie = Cookie::new(LangKey, None);
    assert_eq!(request_lang(Some(Lang::De), Some("xx"), Some("en"), &mut cookie), Some(Lang::De));
    assert!(matches!(cookie.take_out_value(), NewCookieValue::Updated(v, _) if v == "de"));
    assert_eq!(arequest_lang(Some("de"), Some("en"), Some("en")), Some(Lang::De));
    assert_eq!(arequest_lang(Some("blog"), Some("en"), Some("de")), Some(Lang::En));
    assert_eq!(arequest_lang(None, None, Some("de;q=0.1, en;q=0.2")), Some(Lang::En));
    assert_eq!(arequest_lang(None, None, None), None);
}

#[test]
fn parse_u16_any_length() {
    use_parse_u16();
}

fn use_parse_u16() {
    assert_eq!(website::blog::parse_u16("00065535"), Some(65535));
    assert_eq!(website::blog::parse_u16("65536"), None);
    assert_eq!(website::blog::parse_u16("+2024"), Some(2024));
    assert_eq!(website::blog::parse_u16("123456789012"), None);
    assert_eq!(website::blog::parse_u16("99999x"), None);
    assert_eq!(website::blog::parse_u16(""), None);
    assert_eq!(website::blog::parse_u16("+"), None);
}
