//! The decisions of the Douyin crawler: which monitored links name a Douyin
//! user, the signed query for a user's post list, how a page of posts is
//! judged, and what is done with each post.

use vstd::prelude::*;
use vstd::string::StringSliceAdditionalSpecFns;
use vstd::utf8::{encode_utf8, is_char_boundary};
use crate::outside::{first_named_capture, push_char, regex_compiles, regex_named_capture};
use crate::signature::lemma_signature_group;
use crate::xbogus::{generate_xb, generate_xb_at, xb_signature};

verus! {

/// The pattern of a link to a Douyin user's page; the user's id is the
/// group `author_id`.
pub const USER_LINK_PATTERN: &'static str = r"(douyin\.com/user/)(?<author_id>[\w|-]+)";

/// `needle` occurs in `s` as a run of consecutive characters.
pub open spec fn has_substring(s: Seq<char>, needle: Seq<char>) -> bool {
    exists|i: int| 0 <= i <= s.len() - needle.len() && #[trigger] s.subrange(i, i + needle.len()) == needle
}

fn chars_of(s: &str) -> (v: Vec<char>)
    ensures
        v@ == s@,
{
    let n = s.unicode_len();
    let mut v: Vec<char> = Vec::new();
    for i in 0..n
        invariant
            n == s@.len(),
            v@ == s@.take(i as int),
    {
        v.push(s.get_char(i));
        assert(v@ =~= s@.take(i + 1));
    }
    assert(s@.take(n as int) =~= s@);
    v
}

/// `haystack.contains(needle)` for a string needle.
pub fn contains_text(haystack: &str, needle: &str) -> (found: bool)
    ensures
        found == has_substring(haystack@, needle@),
{
    let h = chars_of(haystack);
    let p = chars_of(needle);
    let n = h.len();
    let m = p.len();
    if m > n {
        return false;
    }
    let mut i: usize = 0;
    while i <= n - m
        invariant
            h@ == haystack@,
            p@ == needle@,
            n == h@.len(),
            m == p@.len(),
            m <= n,
            i <= n - m + 1,
            forall|j: int| 0 <= j < i ==> #[trigger] h@.subrange(j, j + m) != p@,
        decreases n - m + 1 - i,
    {
        let mut k: usize = 0;
        while k < m && h[i + k] == p[k]
            invariant
                n == h@.len(),
                m == p@.len(),
                i <= n - m,
                k <= m,
                forall|q: int| 0 <= q < k ==> h@[i + q] == p@[q],
            decreases m - k,
        {
            k += 1;
        }
        if k == m {
            assert(h@.subrange(i as int, i + m) =~= p@);
            return true;
        }
        assert(h@.subrange(i as int, i + m)[k as int] != p@[k as int]);
        i += 1;
    }
    false
}

/// What a monitored link is.
#[derive(Debug, Clone, PartialEq, Eq)]
pub enum MonitorLink {
    /// Not a Douyin link.
    Other,
    /// A link to the page of the Douyin user with this id.
    DouyinUser(String),
}

/// A Douyin link that the user-link pattern cannot be used on.
#[derive(Debug, Clone, Copy, PartialEq, Eq)]
pub enum LinkError {
    /// The user-link pattern does not compile.
    InvalidPattern,
    /// The link names no user.
    NoUserId,
}

/// A link that holds `douyin.com` is matched against the user-link pattern,
/// and the user id is its `author_id` group; any other link is not a
/// Douyin link.
pub fn monitor_link(url: &str) -> (link: Result<MonitorLink, LinkError>)
    ensures
        !has_substring(url@, "douyin.com"@) ==> link == Ok::<MonitorLink, LinkError>(MonitorLink::Other),
        has_substring(url@, "douyin.com"@) && !regex_compiles(USER_LINK_PATTERN@) ==> link
            == Err::<MonitorLink, LinkError>(LinkError::InvalidPattern),
        has_substring(url@, "douyin.com"@) && regex_compiles(USER_LINK_PATTERN@) ==> match regex_named_capture(
            USER_LINK_PATTERN@,
            url@,
            "author_id"@,
        ) {
            Some(id) => link matches Ok(MonitorLink::DouyinUser(author)) && author@ == id,
            None => link == Err::<MonitorLink, LinkError>(LinkError::NoUserId),
        },
{
    if !contains_text(url, "douyin.com") {
        return Ok(MonitorLink::Other);
    }
    match first_named_capture(USER_LINK_PATTERN, url, "author_id") {
        Ok(Some(author)) => Ok(MonitorLink::DouyinUser(author)),
        Ok(None) => Err(LinkError::NoUserId),
        Err(_) => Err(LinkError::InvalidPattern),
    }
}

/// The decimal digits of `n`, most significant first, without leading zeros.
pub open spec fn decimal(n: nat) -> Seq<char>
    decreases n,
{
    if n < 10 {
        seq![('0' as u32 + n) as char]
    } else {
        decimal(n / 10).push(('0' as u32 + n % 10) as char)
    }
}

/// The decimal text of `n`, as `format!("{n}")` writes it.
pub fn decimal_text(n: u64) -> (text: String)
    ensures
        text@ == decimal(n as nat),
    decreases n,
{
    if n < 10 {
        let mut text = String::new();
        push_char(&mut text, (48u8 + n as u8) as char);
        text
    } else {
        let mut text = decimal_text(n / 10);
        push_char(&mut text, (48u8 + (n % 10) as u8) as char);
        text
    }
}

/// The query for one page of a user's posts, before it is signed.
pub open spec fn post_list_query_text(author_id: Seq<char>, max_cursor: u64) -> Seq<char> {
    "aid=6383&sec_user_id="@ + author_id + "&count=20&max_cursor="@ + decimal(max_cursor as nat)
        + "&cookie_enabled=true&platform=PC&downlink=10"@
}

/// The query holds the whole user id right after `sec_user_id=`, and the
/// cursor's decimal digits right after `max_cursor=`.
pub proof fn lemma_post_list_query_holds_id(author_id: Seq<char>, max_cursor: u64)
    ensures
        ({
            let q = post_list_query_text(author_id, max_cursor);
            let prefix = "aid=6383&sec_user_id="@;
            let middle = "&count=20&max_cursor="@;
            let n = author_id.len() as int;
            let m = decimal(max_cursor as nat).len() as int;
            &&& prefix.len() == 21
            &&& middle.len() == 21
            &&& q.subrange(0, 21) == prefix
            &&& q.subrange(21, 21 + n) == author_id
            &&& q.subrange(21 + n, 42 + n) == middle
            &&& q.subrange(42 + n, 42 + n + m) == decimal(max_cursor as nat)
        }),
{
    reveal_strlit("aid=6383&sec_user_id=");
    reveal_strlit("&count=20&max_cursor=");
    let q = post_list_query_text(author_id, max_cursor);
    let prefix = "aid=6383&sec_user_id="@;
    let middle = "&count=20&max_cursor="@;
    let d = decimal(max_cursor as nat);
    let n = author_id.len() as int;
    assert(q.subrange(0, 21) =~= prefix);
    assert(q.subrange(21, 21 + n) =~= author_id);
    assert(q.subrange(21 + n, 42 + n) =~= middle);
    assert(q.subrange(42 + n, 42 + n + d.len() as int) =~= d);
}

/// The query for the page of `author_id`'s posts that starts at
/// `max_cursor`.
pub fn post_list_query(author_id: &str, max_cursor: u64) -> (query: String)
    ensures
        query@ == post_list_query_text(author_id@, max_cursor),
        query@ == "aid=6383&sec_user_id="@ + author_id@ + "&count=20&max_cursor="@ + decimal(
            max_cursor as nat,
        ) + "&cookie_enabled=true&platform=PC&downlink=10"@,
        query@.subrange(21, 21 + author_id@.len() as int) == author_id@,
{
    proof {
        lemma_post_list_query_holds_id(author_id@, max_cursor);
    }
    let mut query = String::from_str("aid=6383&sec_user_id=");
    query.append(author_id);
    query.append("&count=20&max_cursor=");
    let cursor = decimal_text(max_cursor);
    query.append(cursor.as_str());
    query.append("&cookie_enabled=true&platform=PC&downlink=10");
    query
}

/// The parameters sent for a page of posts: the signature of the query
/// signed at one time, then `&X-Bogus=` and the signature of that text
/// signed at another.
pub open spec fn signed_params_text(query: Seq<char>, first: u64, second: u64) -> Seq<char> {
    let params = xb_signature(encode_utf8(query), first);
    params + "&X-Bogus="@ + xb_signature(encode_utf8(params), second)
}

/// The parameters are 65 characters: the query's signature at time
/// `first`, then `&X-Bogus=`, then the signature of the UTF-8 bytes of
/// that first signature at time `second`.
pub proof fn lemma_signed_params_parts(query: Seq<char>, first: u64, second: u64)
    ensures
        ({
            let p = signed_params_text(query, first, second);
            &&& p.len() == 65
            &&& p.subrange(0, 28) == xb_signature(encode_utf8(query), first)
            &&& p.subrange(28, 37) == "&X-Bogus="@
            &&& p.subrange(37, 65) == xb_signature(encode_utf8(p.subrange(0, 28)), second)
        }),
{
    reveal_strlit("&X-Bogus=");
    let sig1 = xb_signature(encode_utf8(query), first);
    let sig2 = xb_signature(encode_utf8(sig1), second);
    lemma_signature_group(encode_utf8(query), first, 0);
    lemma_signature_group(encode_utf8(sig1), second, 0);
    let p = signed_params_text(query, first, second);
    assert(p.subrange(0, 28) =~= sig1);
    assert(p.subrange(28, 37) =~= "&X-Bogus="@);
    assert(p.subrange(37, 65) =~= sig2);
}

/// The parameters sent for the page of `author_id`'s posts that starts at
/// `max_cursor`, the query signed at Unix time `first` and that signature
/// signed again at Unix time `second`.
pub fn post_list_params_at(author_id: &str, max_cursor: u64, first: u64, second: u64) -> (params: String)
    ensures
        params@ == signed_params_text(post_list_query_text(author_id@, max_cursor), first, second),
        params@.len() == 65,
        params@.subrange(0, 28) == xb_signature(
            encode_utf8(
                "aid=6383&sec_user_id="@ + author_id@ + "&count=20&max_cursor="@
                + decimal(max_cursor as nat) + "&cookie_enabled=true&platform=PC&downlink=10"@,
            ),
            first,
        ),
        params@.subrange(28, 37) == "&X-Bogus="@,
        params@.subrange(37, 65) == xb_signature(encode_utf8(params@.subrange(0, 28)), second),
{
    proof {
        lemma_signed_params_parts(post_list_query_text(author_id@, max_cursor), first, second);
    }
    let query = post_list_query(author_id, max_cursor);
    let mut params = generate_xb_at(query.as_str(), first);
    let xb = generate_xb_at(params.as_str(), second);
    params.append("&X-Bogus=");
    params.append(xb.as_str());
    params
}

/// The parameters sent for the page of `author_id`'s posts that starts at
/// `max_cursor`, signed at the current time; `None` where the clock stands
/// before the Unix epoch.
pub fn post_list_params(author_id: &str, max_cursor: u64) -> (params: Option<String>)
    ensures
        params matches Some(p) ==> exists|first: u64, second: u64|
            p@ == signed_params_text(post_list_query_text(author_id@, max_cursor), first, second),
        params matches Some(p) ==> {
            &&& p@.len() == 65
            &&& exists|first: u64|
                p@.subrange(0, 28) == xb_signature(
                    encode_utf8(
                        "aid=6383&sec_user_id="@ + author_id@ + "&count=20&max_cursor="@
                + decimal(max_cursor as nat) + "&cookie_enabled=true&platform=PC&downlink=10"@,
                    ),
                    first,
                )
            &&& p@.subrange(28, 37) == "&X-Bogus="@
            &&& exists|second: u64|
                p@.subrange(37, 65) == xb_signature(encode_utf8(p@.subrange(0, 28)), second)
        },
{
    let query = post_list_query(author_id, max_cursor);
    let mut params = match generate_xb(query.as_str()) {
        Some(params) => params,
        None => return None,
    };
    let xb = match generate_xb(params.as_str()) {
        Some(xb) => xb,
        None => return None,
    };
    let ghost query_bytes = encode_utf8(query@);
    let ghost first = choose|t: u64| params@ == xb_signature(query_bytes, t);
    let ghost second = choose|t: u64| xb@ == xb_signature(encode_utf8(params@), t);
    let ghost signed = params@;
    params.append("&X-Bogus=");
    params.append(xb.as_str());
    assert(params@ == signed_params_text(query@, first, second));
    proof {
        lemma_signed_params_parts(query@, first, second);
        let p = params@;
        assert(p.subrange(0, 28) == xb_signature(encode_utf8(query@), first));
        assert(p.subrange(37, 65) == xb_signature(encode_utf8(p.subrange(0, 28)), second));
    }
    Some(params)
}

/// How a page of the post list is judged.
#[derive(Debug, Clone, Copy, PartialEq, Eq)]
pub enum PageStatus {
    /// The API answered with a status code other than 0.
    Rejected,
    /// The page holds no posts.
    Empty,
    /// The page holds posts to go through.
    Usable,
}

/// A page whose status code is not 0 is rejected; one without posts is
/// empty; any other is usable.
pub fn classify_post_page(status_code: i64, aweme_count: usize) -> (status: PageStatus)
    ensures
        status == (if status_code != 0 {
            PageStatus::Rejected
        } else if aweme_count == 0 {
            PageStatus::Empty
        } else {
            PageStatus::Usable
        }),
{
    if status_code != 0 {
        PageStatus::Rejected
    } else if aweme_count == 0 {
        PageStatus::Empty
    } else {
        PageStatus::Usable
    }
}

/// The last six bytes of a user id, which name the user's folder.
pub fn short_sec_uid(author_id: &str) -> (short: &str)
    requires
        author_id.spec_bytes().len() >= 6,
        is_char_boundary(author_id.spec_bytes(), author_id.spec_bytes().len() - 6),
    ensures
        short.spec_bytes() == author_id.spec_bytes().subrange(
            author_id.spec_bytes().len() - 6,
            author_id.spec_bytes().len() as int,
        ),
{
    let len = author_id.as_bytes().len();
    author_id.split_at(len - 6).1
}

/// The folder name of a user: `{uid}@{nickname}[{short_sec_uid}]`.
pub fn author_dir_name(uid: &str, nickname: &str, short_sec_uid: &str) -> (name: String)
    ensures
        name@ == uid@ + "@"@ + nickname@ + "["@ + short_sec_uid@ + "]"@,
{
    let mut name = String::from_str(uid);
    name.append("@");
    name.append(nickname);
    name.append("[");
    name.append(short_sec_uid);
    name.append("]");
    name
}

/// What is done with a post after its creation time has been looked up.
#[derive(Debug, Clone, Copy, PartialEq, Eq)]
pub enum AwemeAction {
    /// Go on with the next post.
    Skip,
    /// Stop going through the page.
    Stop,
    /// Go on with this post.
    Process,
}

/// The decision for one post: whether its creation time is recorded, and
/// what is done next.
#[derive(Debug, Clone, Copy, PartialEq, Eq)]
pub struct AwemeStep {
    pub record_create_time: bool,
    pub action: AwemeAction,
}

/// The time a post is compared with: its own creation time where it had
/// not been seen, 0 otherwise.
pub open spec fn last_seen_time(seen_before: bool, create_time: i64) -> i64 {
    if seen_before {
        0
    } else {
        create_time
    }
}

/// A post not seen before has its creation time recorded. A post whose
/// creation time is not after the time it is compared with is skipped when
/// it is pinned (`is_top == 1`) and stops the page otherwise; any other post
/// is processed.
pub fn aweme_step(seen_before: bool, create_time: i64, is_top: i64) -> (step: AwemeStep)
    ensures
        step.record_create_time == !seen_before,
        step.action == (if create_time <= last_seen_time(seen_before, create_time) {
            if is_top == 1 {
                AwemeAction::Skip
            } else {
                AwemeAction::Stop
            }
        } else {
            AwemeAction::Process
        }),
        !seen_before ==> step.action != AwemeAction::Process,
        seen_before && create_time > 0 ==> step.action == AwemeAction::Process,
        (!seen_before || create_time <= 0) && is_top == 1 ==> step.action == AwemeAction::Skip,
        (!seen_before || create_time <= 0) && is_top != 1 ==> step.action == AwemeAction::Stop,
{
    let mut last_time: i64 = 0;
    let record_create_time = !seen_before;
    if !seen_before {
        last_time = create_time;
    }
    let action = if create_time <= last_time {
        if is_top == 1 {
            AwemeAction::Skip
        } else {
            AwemeAction::Stop
        }
    } else {
        AwemeAction::Process
    };
    AwemeStep { record_create_time, action }
}

} // verus!
