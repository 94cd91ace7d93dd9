//! Protocol logic for driving the build server: the wait-hint grammar
//! and its parser, the queue-resolution step, the enqueue-response
//! reader, progressive-log signals, and the URLs the stages request.
//!
//! Every function here is pure: the surrounding binary performs the
//! HTTP requests and hands the relevant parts of each response in as
//! plain values.

use vstd::prelude::*;
use vstd::string::*;

use crate::error::AppError;
use crate::strutil::{
    dec_digits, digits_val, first_non_digit, fits_u64, is_digit, is_digit_run,
    lemma_digits_val_nonneg, lemma_first_non_digit_is, parse_u64, scan_digits, str_eq,
    u64_to_dec,
};

verus! {

/// A server response buffered whole: status line, headers (names
/// lower-cased, as the transport reports them) and the body text.
#[derive(Debug)]
pub struct BufferedResponse {
    pub headers: Vec<(String, String)>,
    pub status: u16,
    pub text: String,
}

/// Snapshot of a queued build request as the server reports it.
/// `executable` present means the build has started; otherwise `why`
/// carries a free-text wait reason.
#[derive(Debug)]
pub struct JenkinsQueueItem {
    pub class: String,
    pub actions: Vec<JenkinsQueueItemAction>,
    pub blocked: bool,
    pub buildable: bool,
    pub executable: Option<JenkinsQueueItemExecutable>,
    pub id: u32,
    pub in_queue_since: u64,
    pub params: String,
    pub task: JenkinsQueueItemTask,
    pub url: String,
    pub why: Option<String>,
    pub timestamp: Option<u64>,
}

#[derive(Debug)]
pub struct JenkinsQueueItemAction {
    pub class: String,
    pub causes: Vec<JenkinsQueueItemActionCause>,
}

/// The concrete build a queue item resolved into.
#[derive(Debug)]
pub struct JenkinsQueueItemExecutable {
    pub class: String,
    pub number: u64,
    pub url: String,
}

#[derive(Debug)]
pub struct JenkinsQueueItemActionCause {
    pub class: String,
    pub short_description: String,
    pub user_id: String,
    pub user_name: String,
}

#[derive(Debug)]
pub struct JenkinsQueueItemTask {
    pub class: String,
    pub name: String,
    pub url: String,
    pub color: String,
}

/// `p` is the first `p.len()` characters of `s`.
pub open spec fn has_prefix(s: Seq<char>, p: Seq<char>) -> bool {
    p.len() <= s.len() && s.take(p.len() as int) == p
}

/// `p` is the last `p.len()` characters of `s`.
pub open spec fn has_suffix(s: Seq<char>, p: Seq<char>) -> bool {
    p.len() <= s.len() && s.skip(s.len() - p.len()) == p
}

pub open spec fn quiet_prefix() -> Seq<char> {
    "In the quiet period. Expires in "@
}

pub open spec fn secs_suffix() -> Seq<char> {
    " secs"@
}

pub open spec fn ms_suffix() -> Seq<char> {
    " ms"@
}

pub open spec fn finished_hint() -> Seq<char> {
    "Finished waiting"@
}

/// The recognized lexical forms of a server wait hint, one constructor
/// per form, with the digit runs they carry.
pub enum WaitHint {
    /// "In the quiet period. Expires in N secs"
    QuietSecs(Seq<char>),
    /// "In the quiet period. Expires in N.M secs"
    QuietSecsMillis(Seq<char>, Seq<char>),
    /// "In the quiet period. Expires in N ms"
    QuietMs(Seq<char>),
    /// "Finished waiting"
    FinishedWaiting,
    Unrecognized,
}

/// Classifies what follows the quiet-period prefix: a whole-number
/// delay "N secs", a dotted delay "N.M secs", or a millisecond delay
/// "N ms".
pub open spec fn quiet_body_hint(body: Seq<char>) -> WaitHint {
    if has_suffix(body, secs_suffix()) {
        let num = body.take(body.len() - secs_suffix().len());
        if is_digit_run(num) {
            WaitHint::QuietSecs(num)
        } else {
            let k = first_non_digit(num);
            if 1 <= k && k < num.len() && num[k] == '.' && is_digit_run(num.skip(k + 1)) {
                WaitHint::QuietSecsMillis(num.take(k), num.skip(k + 1))
            } else {
                WaitHint::Unrecognized
            }
        }
    } else if has_suffix(body, ms_suffix()) {
        let num = body.take(body.len() - ms_suffix().len());
        if is_digit_run(num) {
            WaitHint::QuietMs(num)
        } else {
            WaitHint::Unrecognized
        }
    } else {
        WaitHint::Unrecognized
    }
}

/// Classifies a wait-hint string into its lexical form. Matching is
/// case-sensitive and anchored to the whole string.
pub open spec fn wait_hint_of(s: Seq<char>) -> WaitHint {
    if s == finished_hint() {
        WaitHint::FinishedWaiting
    } else if has_prefix(s, quiet_prefix()) {
        quiet_body_hint(s.skip(quiet_prefix().len() as int))
    } else {
        WaitHint::Unrecognized
    }
}

/// With a " secs" suffix present, locates the number region before the
/// suffix relative to the leading digit run of the body.
proof fn lemma_suffix_secs_facts(body: Seq<char>, i: int)
    requires
        has_suffix(body, secs_suffix()),
        0 <= i <= body.len(),
        forall|k: int| 0 <= k < i ==> is_digit(#[trigger] body[k]),
        i < body.len() ==> !is_digit(body[i]),
    ensures
        secs_suffix().len() == 5,
        body.len() >= 5,
        i <= body.len() - 5,
        body[body.len() - 5] == ' ',
        body[body.len() - 4] == 's',
        body[body.len() - 3] == 'e',
        body[body.len() - 2] == 'c',
        body[body.len() - 1] == 's',
        first_non_digit(body.take(body.len() - 5)) == i,
        is_digit_run(body.take(body.len() - 5)) <==> (i == body.len() - 5 && i >= 1),
{
    reveal_strlit(" secs");
    let len = body.len() as int;
    let suf = body.skip(len - 5);
    assert(suf == secs_suffix());
    assert(body[len - 5] == suf[0]);
    assert(body[len - 4] == suf[1]);
    assert(body[len - 3] == suf[2]);
    assert(body[len - 2] == suf[3]);
    assert(body[len - 1] == suf[4]);
    assert(!is_digit(' '));
    assert(i <= len - 5) by {
        if i > len - 5 {
            assert(is_digit(body[len - 5]));
        }
    }
    let num = body.take(len - 5);
    assert(forall|k: int| 0 <= k < i ==> is_digit(#[trigger] num[k]));
    lemma_first_non_digit_is(num, i);
    if is_digit_run(num) {
        assert(num.len() >= 1);
        if i < len - 5 {
            assert(is_digit(num[i]));
            assert(num[i] == body[i]);
            assert(false);
        }
    }
    if i == len - 5 && i >= 1 {
        assert(forall|k: int| 0 <= k < num.len() ==> is_digit(#[trigger] num[k]));
    }
}

/// The same for a " ms" suffix.
proof fn lemma_suffix_ms_facts(body: Seq<char>, i: int)
    requires
        has_suffix(body, ms_suffix()),
        0 <= i <= body.len(),
        forall|k: int| 0 <= k < i ==> is_digit(#[trigger] body[k]),
        i < body.len() ==> !is_digit(body[i]),
    ensures
        ms_suffix().len() == 3,
        body.len() >= 3,
        i <= body.len() - 3,
        body[body.len() - 3] == ' ',
        body[body.len() - 2] == 'm',
        body[body.len() - 1] == 's',
        is_digit_run(body.take(body.len() - 3)) <==> (i == body.len() - 3 && i >= 1),
{
    reveal_strlit(" ms");
    let len = body.len() as int;
    let suf = body.skip(len - 3);
    assert(suf == ms_suffix());
    assert(body[len - 3] == suf[0]);
    assert(body[len - 2] == suf[1]);
    assert(body[len - 1] == suf[2]);
    assert(!is_digit(' '));
    assert(i <= len - 3) by {
        if i > len - 3 {
            assert(is_digit(body[len - 3]));
        }
    }
    let num = body.take(len - 3);
    if is_digit_run(num) {
        assert(num.len() >= 1);
        if i < len - 3 {
            assert(is_digit(num[i]));
            assert(num[i] == body[i]);
            assert(false);
        }
    }
    if i == len - 3 && i >= 1 {
        assert(forall|k: int| 0 <= k < num.len() ==> is_digit(#[trigger] num[k]));
    }
}

/// A string ending in " ms" does not also end in " secs".
proof fn lemma_ms_not_secs(body: Seq<char>)
    requires
        has_suffix(body, ms_suffix()),
    ensures
        !has_suffix(body, secs_suffix()),
{
    reveal_strlit(" secs");
    reveal_strlit(" ms");
    let len = body.len() as int;
    if has_suffix(body, secs_suffix()) {
        let s5 = body.skip(len - 5);
        let s3 = body.skip(len - 3);
        assert(s5 == secs_suffix());
        assert(s3 == ms_suffix());
        assert(body[len - 2] == s5[3]);
        assert(body[len - 2] == s3[1]);
        assert(false);
    }
}

/// A body whose leading digit run is empty, or that is digits all the
/// way to its end, matches no quiet-period form.
proof fn lemma_body_unrec_endpoints(body: Seq<char>, i: int)
    requires
        0 <= i <= body.len(),
        forall|k: int| 0 <= k < i ==> is_digit(#[trigger] body[k]),
        i < body.len() ==> !is_digit(body[i]),
        i == 0 || i == body.len(),
    ensures
        quiet_body_hint(body) == WaitHint::Unrecognized,
{
    if has_suffix(body, secs_suffix()) {
        lemma_suffix_secs_facts(body, i);
    } else if has_suffix(body, ms_suffix()) {
        lemma_suffix_ms_facts(body, i);
    }
}

/// A body that runs "digits, dot" but then has either no digit at all
/// or digits clear to its end matches no quiet-period form.
proof fn lemma_body_unrec_dot(body: Seq<char>, i: int, j: int)
    requires
        0 < i < body.len(),
        forall|k: int| 0 <= k < i ==> is_digit(#[trigger] body[k]),
        body[i] == '.',
        i + 1 <= j <= body.len(),
        forall|k: int| i + 1 <= k < j ==> is_digit(#[trigger] body[k]),
        j < body.len() ==> !is_digit(body[j]),
        j == i + 1 || j == body.len(),
    ensures
        quiet_body_hint(body) == WaitHint::Unrecognized,
{
    let len = body.len() as int;
    assert(!is_digit('.'));
    if has_suffix(body, secs_suffix()) {
        lemma_suffix_secs_facts(body, i);
        assert(i < len - 5) by {
            if i == len - 5 {
                assert(body[i] == ' ');
            }
        }
        let num = body.take(len - 5);
        assert(!is_digit_run(num));
        if j == i + 1 {
            if i + 1 < len - 5 {
                assert(!is_digit(num[i + 1]));
                assert(!is_digit_run(num.skip(i + 1))) by {
                    assert(num.skip(i + 1)[0] == num[i + 1]);
                }
            } else {
                assert(num.skip(i + 1).len() == 0);
            }
        } else {
            assert(!is_digit('s'));
            assert(is_digit(body[len - 4]));
            assert(false);
        }
    } else if has_suffix(body, ms_suffix()) {
        lemma_suffix_ms_facts(body, i);
        assert(i < len - 3) by {
            if i == len - 3 {
                assert(body[i] == ' ');
            }
        }
        let num = body.take(len - 3);
        assert(!is_digit_run(num)) by {
            assert(num[i] == '.');
        }
    }
}

/// A body of digits followed directly by the " secs" suffix is the
/// whole-number form.
proof fn lemma_body_plain_secs(body: Seq<char>, i: int)
    requires
        0 < i < body.len(),
        forall|k: int| 0 <= k < i ==> is_digit(#[trigger] body[k]),
        body.skip(i) == secs_suffix(),
    ensures
        quiet_body_hint(body) == WaitHint::QuietSecs(body.take(i)),
{
    reveal_strlit(" secs");
    let len = body.len() as int;
    assert(body.skip(i).len() == 5);
    assert(has_suffix(body, secs_suffix()));
    let num = body.take(len - 5);
    assert(num =~= body.take(i));
    assert(forall|k: int| 0 <= k < num.len() ==> is_digit(#[trigger] num[k]));
}

/// A body of digits followed directly by the " ms" suffix is the
/// millisecond form.
proof fn lemma_body_plain_ms(body: Seq<char>, i: int)
    requires
        0 < i < body.len(),
        forall|k: int| 0 <= k < i ==> is_digit(#[trigger] body[k]),
        body.skip(i) == ms_suffix(),
    ensures
        quiet_body_hint(body) == WaitHint::QuietMs(body.take(i)),
{
    reveal_strlit(" ms");
    let len = body.len() as int;
    assert(body.skip(i).len() == 3);
    assert(has_suffix(body, ms_suffix()));
    lemma_ms_not_secs(body);
    let num = body.take(len - 3);
    assert(num =~= body.take(i));
    assert(forall|k: int| 0 <= k < num.len() ==> is_digit(#[trigger] num[k]));
}

/// A body of digits, a dot, more digits, and the " secs" suffix is the
/// dotted form.
proof fn lemma_body_dot_secs(body: Seq<char>, i: int, j: int)
    requires
        0 < i,
        i + 1 < j < body.len(),
        forall|k: int| 0 <= k < i ==> is_digit(#[trigger] body[k]),
        body[i] == '.',
        forall|k: int| i + 1 <= k < j ==> is_digit(#[trigger] body[k]),
        body.skip(j) == secs_suffix(),
    ensures
        quiet_body_hint(body) == WaitHint::QuietSecsMillis(
            body.take(i),
            body.subrange(i + 1, j),
        ),
{
    reveal_strlit(" secs");
    let len = body.len() as int;
    assert(body.skip(j).len() == 5);
    assert(has_suffix(body, secs_suffix()));
    let num = body.take(len - 5);
    assert(num.len() == j);
    assert(!is_digit('.'));
    assert(num[i] == '.');
    assert(!is_digit_run(num));
    assert(forall|k: int| 0 <= k < i ==> is_digit(#[trigger] num[k]));
    lemma_first_non_digit_is(num, i);
    assert(num.skip(i + 1) =~= body.subrange(i + 1, j));
    assert(is_digit_run(num.skip(i + 1))) by {
        assert(forall|k: int| 0 <= k < j - i - 1 ==> is_digit(
            #[trigger] body.subrange(i + 1, j)[k],
        ));
    }
    assert(num.take(i) =~= body.take(i));
}

/// A body that runs "digits, dot, digits" but does not close with the
/// " secs" suffix right after the second run matches no quiet-period
/// form.
proof fn lemma_body_unrec_dot_no_secs(body: Seq<char>, i: int, j: int)
    requires
        0 < i,
        i + 1 < j < body.len(),
        forall|k: int| 0 <= k < i ==> is_digit(#[trigger] body[k]),
        body[i] == '.',
        forall|k: int| i + 1 <= k < j ==> is_digit(#[trigger] body[k]),
        !is_digit(body[j]),
        body.skip(j) != secs_suffix(),
    ensures
        quiet_body_hint(body) == WaitHint::Unrecognized,
{
    let len = body.len() as int;
    assert(!is_digit('.'));
    if has_suffix(body, secs_suffix()) {
        lemma_suffix_secs_facts(body, i);
        assert(i < len - 5) by {
            if i == len - 5 {
                assert(body[i] == ' ');
            }
        }
        let num = body.take(len - 5);
        assert(num[i] == '.');
        assert(!is_digit_run(num));
        if j < len - 5 {
            assert(!is_digit_run(num.skip(i + 1))) by {
                assert(num.skip(i + 1)[j - i - 1] == body[j]);
            }
        } else if j == len - 5 {
            assert(body.skip(j) == secs_suffix());
            assert(false);
        } else {
            assert(is_digit(body[len - 5]));
            assert(false);
        }
    } else if has_suffix(body, ms_suffix()) {
        lemma_suffix_ms_facts(body, i);
        assert(i < len - 3) by {
            if i == len - 3 {
                assert(body[i] == ' ');
            }
        }
        let num = body.take(len - 3);
        assert(!is_digit_run(num)) by {
            assert(num[i] == '.');
        }
    }
}

/// A body whose leading digit run stops at a character that opens none
/// of the recognized endings matches no quiet-period form.
proof fn lemma_body_unrec_plain(body: Seq<char>, i: int)
    requires
        0 < i < body.len(),
        forall|k: int| 0 <= k < i ==> is_digit(#[trigger] body[k]),
        !is_digit(body[i]),
        body[i] != '.',
        body.skip(i) != secs_suffix(),
        body.skip(i) != ms_suffix(),
    ensures
        quiet_body_hint(body) == WaitHint::Unrecognized,
{
    let len = body.len() as int;
    if has_suffix(body, secs_suffix()) {
        lemma_suffix_secs_facts(body, i);
        assert(i < len - 5) by {
            if i == len - 5 {
                assert(body.skip(i) == secs_suffix());
            }
        }
        let num = body.take(len - 5);
        assert(num[i] == body[i]);
    } else if has_suffix(body, ms_suffix()) {
        lemma_suffix_ms_facts(body, i);
        assert(i < len - 3) by {
            if i == len - 3 {
                assert(body.skip(i) == ms_suffix());
            }
        }
    }
}

/// The milliseconds a recognized wait hint asks for, or `None` for an
/// unrecognized one. A fractional-second hint "N.M secs" contributes
/// `M` as a literal millisecond remainder, and "Finished waiting"
/// yields a fixed short wait, since the server reports completion a
/// little before the build is actually assigned.
pub open spec fn wait_hint_millis(s: Seq<char>) -> Option<int> {
    match wait_hint_of(s) {
        WaitHint::QuietSecs(n) => Some(digits_val(n) * 1000),
        WaitHint::QuietSecsMillis(n, m) => Some(digits_val(n) * 1000 + digits_val(m)),
        WaitHint::QuietMs(n) => Some(digits_val(n)),
        WaitHint::FinishedWaiting => Some(1000),
        WaitHint::Unrecognized => None,
    }
}

/// Turns a server wait hint into the number of milliseconds to sleep
/// before polling again.
///
/// Recognized hints yield exactly the milliseconds that
/// `wait_hint_millis` assigns them. An unrecognized hint yields
/// `JenkinsEnqueueWaitError`; a recognized hint whose value exceeds
/// `u64::MAX` yields `JenkinsEnqueueSecondsParseError`. Both errors
/// carry the original hint text.
pub fn parse_why(why: &String) -> (r: Result<u64, AppError>)
    ensures
        match r {
            Ok(d) => wait_hint_millis(why@) == Some(d as int),
            Err(e) => match e {
                AppError::JenkinsEnqueueSecondsParseError(t) => t@ == why@ && (wait_hint_millis(
                    why@,
                ) matches Some(v) && v > u64::MAX),
                AppError::JenkinsEnqueueWaitError(t) => t@ == why@ && wait_hint_millis(why@)
                    is None,
                _ => false,
            },
        },
{
    let s = why.as_str();
    if str_eq(s, "Finished waiting") {
        return Ok(1000);
    }
    let p = "In the quiet period. Expires in ";
    proof {
        reveal_strlit("In the quiet period. Expires in ");
    }
    let plen = p.unicode_len();
    let n = s.unicode_len();
    if n < plen {
        return Err(AppError::JenkinsEnqueueWaitError(why.clone()));
    }
    let pre = s.substring_char(0, plen);
    proof {
        assert(s@.take(plen as int) =~= s@.subrange(0, plen as int));
    }
    if !str_eq(pre, p) {
        assert(!has_prefix(s@, quiet_prefix()));
        return Err(AppError::JenkinsEnqueueWaitError(why.clone()));
    }
    let body = s.substring_char(plen, n);
    proof {
        assert(has_prefix(s@, quiet_prefix()));
        assert(body@ =~= s@.skip(plen as int));
        assert(wait_hint_of(s@) == quiet_body_hint(body@));
    }
    let blen = body.unicode_len();
    let i = scan_digits(body, 0);
    if i == 0 || i == blen {
        proof {
            lemma_body_unrec_endpoints(body@, i as int);
        }
        return Err(AppError::JenkinsEnqueueWaitError(why.clone()));
    }
    let c = body.get_char(i);
    if c == '.' {
        let j = scan_digits(body, i + 1);
        if j == i + 1 || j == blen {
            proof {
                lemma_body_unrec_dot(body@, i as int, j as int);
            }
            return Err(AppError::JenkinsEnqueueWaitError(why.clone()));
        }
        let rest = body.substring_char(j, blen);
        proof {
            assert(body@.skip(j as int) =~= rest@);
        }
        if str_eq(rest, " secs") {
            proof {
                lemma_body_dot_secs(body@, i as int, j as int);
            }
            let nstr = body.substring_char(0, i);
            let mstr = body.substring_char(i + 1, j);
            proof {
                assert(nstr@ =~= body@.take(i as int));
                lemma_digits_val_nonneg(nstr@);
                lemma_digits_val_nonneg(mstr@);
            }
            match parse_u64(nstr) {
                Some(nv) => match nv.checked_mul(1000) {
                    Some(t) => match parse_u64(mstr) {
                        Some(mv) => match t.checked_add(mv) {
                            Some(total) => Ok(total),
                            None => Err(AppError::JenkinsEnqueueSecondsParseError(why.clone())),
                        },
                        None => {
                            proof {
                                assert(digits_val(mstr@) > u64::MAX);
                            }
                            Err(AppError::JenkinsEnqueueSecondsParseError(why.clone()))
                        },
                    },
                    None => Err(AppError::JenkinsEnqueueSecondsParseError(why.clone())),
                },
                None => {
                    proof {
                        assert(digits_val(nstr@) > u64::MAX);
                        assert(digits_val(nstr@) * 1000 >= digits_val(nstr@));
                    }
                    Err(AppError::JenkinsEnqueueSecondsParseError(why.clone()))
                },
            }
        } else {
            proof {
                lemma_body_unrec_dot_no_secs(body@, i as int, j as int);
            }
            Err(AppError::JenkinsEnqueueWaitError(why.clone()))
        }
    } else {
        let rest = body.substring_char(i, blen);
        proof {
            assert(body@.skip(i as int) =~= rest@);
        }
        if str_eq(rest, " secs") {
            proof {
                lemma_body_plain_secs(body@, i as int);
            }
            let nstr = body.substring_char(0, i);
            proof {
                assert(nstr@ =~= body@.take(i as int));
                lemma_digits_val_nonneg(nstr@);
            }
            match parse_u64(nstr) {
                Some(nv) => match nv.checked_mul(1000) {
                    Some(t) => Ok(t),
                    None => Err(AppError::JenkinsEnqueueSecondsParseError(why.clone())),
                },
                None => {
                    proof {
                        assert(digits_val(nstr@) > u64::MAX);
                        assert(digits_val(nstr@) * 1000 >= digits_val(nstr@));
                    }
                    Err(AppError::JenkinsEnqueueSecondsParseError(why.clone()))
                },
            }
        } else if str_eq(rest, " ms") {
            proof {
                lemma_body_plain_ms(body@, i as int);
            }
            let nstr = body.substring_char(0, i);
            proof {
                assert(nstr@ =~= body@.take(i as int));
            }
            match parse_u64(nstr) {
                Some(nv) => Ok(nv),
                None => Err(AppError::JenkinsEnqueueSecondsParseError(why.clone())),
            }
        } else {
            proof {
                lemma_body_unrec_plain(body@, i as int);
            }
            Err(AppError::JenkinsEnqueueWaitError(why.clone()))
        }
    }
}

} // verus!


verus! {

/// What one look at a queue item tells the resolver to do next:
/// sleep and poll again, or move on to the named build.
#[derive(Debug, PartialEq, Eq)]
pub enum ResolveStep {
    /// Sleep this many milliseconds, then fetch the same queue-item
    /// URL again.
    Wait(u64),
    /// The build has started; stream its log from this URL.
    Resolved(String),
}

/// One transition of the queue resolver.
///
/// An `executable` resolves immediately to its build URL, with no
/// sleep and no further poll. Otherwise the `why` text is read as a
/// wait hint; a queue item carrying neither is ambiguous and fails
/// with the item's URL attached.
pub fn parse_item(item: &JenkinsQueueItem) -> (r: Result<ResolveStep, AppError>)
    ensures
        match item.executable {
            Some(ex) => (r matches Ok(ResolveStep::Resolved(u)) && u@ == ex.url@),
            None => match item.why {
                Some(w) => match r {
                    Ok(ResolveStep::Wait(d)) => wait_hint_millis(w@) == Some(d as int),
                    Ok(_) => false,
                    Err(e) => match e {
                        AppError::JenkinsEnqueueSecondsParseError(t) => t@ == w@ && (
                        wait_hint_millis(w@) matches Some(v) && v > u64::MAX),
                        AppError::JenkinsEnqueueWaitError(t) => t@ == w@ && wait_hint_millis(w@)
                            is None,
                        _ => false,
                    },
                },
                None => (r matches Err(AppError::JenkinsEnqueueDeserializeError(t)) && t@
                    == item.url@),
            },
        },
{
    match &item.executable {
        Some(ex) => Ok(ResolveStep::Resolved(ex.url.clone())),
        None => match &item.why {
            Some(w) => match parse_why(w) {
                Ok(d) => Ok(ResolveStep::Wait(d)),
                Err(e) => Err(e),
            },
            None => Err(AppError::JenkinsEnqueueDeserializeError(item.url.clone())),
        },
    }
}

/// The value of the first header with the given name, if any.
pub open spec fn header_value(hs: Seq<(String, String)>, name: Seq<char>) -> Option<Seq<char>>
    decreases hs.len(),
{
    if hs.len() == 0 {
        None
    } else if hs[0].0@ == name {
        Some(hs[0].1@)
    } else {
        header_value(hs.drop_first(), name)
    }
}

/// Finds the first header with the given name.
pub fn header_lookup<'a>(headers: &'a Vec<(String, String)>, name: &str) -> (r: Option<
    &'a String,
>)
    ensures
        match r {
            Some(v) => header_value(headers@, name@) == Some(v@),
            None => header_value(headers@, name@) is None,
        },
{
    let n = headers.len();
    let mut idx: usize = 0;
    proof {
        assert(headers@.skip(0) =~= headers@);
    }
    while idx < n
        invariant
            0 <= idx <= n,
            n == headers@.len(),
            header_value(headers@, name@) == header_value(headers@.skip(idx as int), name@),
        decreases n - idx,
    {
        proof {
            assert(headers@.skip(idx as int)[0] == headers@[idx as int]);
        }
        if str_eq(headers[idx].0.as_str(), name) {
            return Some(&headers[idx].1);
        }
        proof {
            assert(headers@.skip(idx as int).drop_first() =~= headers@.skip(idx as int + 1));
        }
        idx = idx + 1;
    }
    proof {
        assert(headers@.skip(n as int).len() == 0);
    }
    None
}

/// Reading of a numeric response header: the named header's value as a
/// base-10 number, or the default when the header is absent or not a
/// number that fits. The default stands in deliberately; absence or
/// garbage is not an error.
pub open spec fn header_u64(hs: Seq<(String, String)>, name: Seq<char>, default: u64) -> u64 {
    match header_value(hs, name) {
        Some(v) => if fits_u64(v) {
            digits_val(v) as u64
        } else {
            default
        },
        None => default,
    }
}

/// Reading of a boolean response header, `"true"` or `"false"`, with
/// the same deliberate leniency.
pub open spec fn header_bool(hs: Seq<(String, String)>, name: Seq<char>, default: bool) -> bool {
    match header_value(hs, name) {
        Some(v) => if v == "true"@ {
            true
        } else if v == "false"@ {
            false
        } else {
            default
        },
        None => default,
    }
}

/// Parses the named header as a base-10 number, defaulting when it is
/// absent or unusable.
pub fn header_parse_u64(headers: &Vec<(String, String)>, name: &str, default: u64) -> (r: u64)
    ensures
        r == header_u64(headers@, name@, default),
{
    match header_lookup(headers, name) {
        Some(v) => match parse_u64(v.as_str()) {
            Some(x) => x,
            None => default,
        },
        None => default,
    }
}

/// Parses the named header as a boolean, defaulting when it is absent
/// or unusable.
pub fn header_parse_bool(headers: &Vec<(String, String)>, name: &str, default: bool) -> (r: bool)
    ensures
        r == header_bool(headers@, name@, default),
{
    match header_lookup(headers, name) {
        Some(v) => {
            if str_eq(v.as_str(), "true") {
                true
            } else if str_eq(v.as_str(), "false") {
                false
            } else {
                default
            }
        },
        None => default,
    }
}

/// Byte offset into the build's log plus the continuation flag; one of
/// these is read off every progressive-text response.
#[derive(Debug, PartialEq, Eq, Clone, Copy)]
pub struct StreamCursor {
    pub offset: u64,
    pub more: bool,
}

/// One transition of the log streamer: reads the next-offset and
/// more-data signals from a response's headers. A missing or
/// unreadable offset defaults to 0 and a missing or unreadable
/// more-data flag to false, so a bare response ends the stream after
/// its body is written.
pub fn stream_step(headers: &Vec<(String, String)>) -> (r: StreamCursor)
    ensures
        r.offset == header_u64(headers@, "x-text-size"@, 0),
        r.more == header_bool(headers@, "x-more-data"@, false),
{
    StreamCursor {
        offset: header_parse_u64(headers, "x-text-size", 0),
        more: header_parse_bool(headers, "x-more-data", false),
    }
}

/// Reads the queue-item location off an enqueue response.
///
/// The server acknowledges an enqueue by naming the new queue item in
/// a location header; that value is returned exactly as sent. A
/// response without one cannot be tracked, which is a protocol error
/// distinct from any transport failure; it carries the response status
/// rendered in decimal.
pub fn enqueue_location(resp: &BufferedResponse) -> (r: Result<String, AppError>)
    ensures
        match r {
            Ok(l) => header_value(resp.headers@, "location"@) == Some(l@),
            Err(e) => header_value(resp.headers@, "location"@) is None && (
            e matches AppError::JenkinsEnqueueLocationMissingError(t) && t@ == dec_digits(
                resp.status as int,
            )),
        },
{
    match header_lookup(&resp.headers, "location") {
        Some(l) => Ok(l.clone()),
        None => Err(
            AppError::JenkinsEnqueueLocationMissingError(u64_to_dec(resp.status as u64)),
        ),
    }
}

/// URL that triggers a build of the named job.
pub fn build_trigger_url(host_url: &str, job: &str) -> (r: String)
    ensures
        r@ == host_url@ + "/job/"@ + job@ + "/build"@,
{
    let r = String::from_str(host_url).concat("/job/").concat(job).concat("/build");
    proof {
        assert(r@ =~= host_url@ + "/job/"@ + job@ + "/build"@);
    }
    r
}

/// URL under which a queue item reports its status as a machine
/// readable document.
pub fn queue_item_api_url(queue_item_url: &str) -> (r: String)
    ensures
        r@ == queue_item_url@ + "/api/json"@,
{
    String::from_str(queue_item_url).concat("/api/json")
}

/// URL of the log chunk that starts at the given byte offset.
pub fn progressive_text_url(build_url: &str, start: u64) -> (r: String)
    ensures
        r@ == build_url@ + "logText/progressiveText?start="@ + dec_digits(start as int),
{
    let num = u64_to_dec(start);
    let r = String::from_str(build_url).concat("logText/progressiveText?start=").concat(
        num.as_str(),
    );
    proof {
        assert(r@ =~= build_url@ + "logText/progressiveText?start="@ + dec_digits(start as int));
    }
    r
}

} // verus!
