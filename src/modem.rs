use vstd::prelude::*;
use vstd::string::*;

verus! {

/// `s` without any occurrence of `c`.
pub open spec fn without_char(s: Seq<char>, c: char) -> Seq<char>
    decreases s.len(),
{
    if s.len() == 0 {
        s
    } else if s[0] == c {
        without_char(s.skip(1), c)
    } else {
        seq![s[0]] + without_char(s.skip(1), c)
    }
}

/// `s` with each two-character escape `\n`, read left to right, turned into a line break.
pub open spec fn with_newlines(s: Seq<char>) -> Seq<char>
    decreases s.len(),
{
    if s.len() == 0 {
        s
    } else if s.len() >= 2 && s[0] == '\\' && s[1] == 'n' {
        seq!['\n'] + with_newlines(s.skip(2))
    } else {
        seq![s[0]] + with_newlines(s.skip(1))
    }
}

/// A PEM key as the modem quotes it in its answer: quotes dropped, escaped
/// line breaks restored, stray backslashes dropped.
pub open spec fn spec_unescape_public_key(raw: Seq<char>) -> Seq<char> {
    without_char(with_newlines(without_char(raw, '"')), '\\')
}

/// The JSON body of the modem's login form.
pub open spec fn spec_login_json(user: Seq<char>, password: Seq<char>) -> Seq<char> {
    "{\"luci_username\":\""@ + user + "\",\"luci_password\":\""@ + password + "\"}"@
}

/// The standard, padded base64 text of `bytes`.
pub uninterp spec fn base64_of(bytes: Seq<u8>) -> Seq<char>;

/// Relies on base64::encode_config with base64::STANDARD: the padded
/// standard-alphabet encoding, which depends on the bytes alone and takes four
/// characters for each started group of three bytes. It panics when that
/// length overflows `usize`.
#[verifier::external_body]
fn encode_base64(bytes: &[u8]) -> (r: String)
    requires
        4 * ((bytes@.len() + 2) / 3) <= usize::MAX,
    ensures
        r@ == base64_of(bytes@),
        r@.len() == 4 * ((bytes@.len() + 2) / 3),
{
    base64::encode_config(bytes, base64::STANDARD)
}

/// Returns `s` without any occurrence of `c`.
fn remove_char(s: &str, c: char) -> (r: String)
    ensures
        r@ == without_char(s@, c),
{
    let n = s.unicode_len();
    let mut out = String::new();
    let mut i: usize = 0;
    proof {
        assert(s@.skip(0) =~= s@);
        assert(out@ + without_char(s@, c) =~= without_char(s@, c));
    }
    while i < n
        invariant
            n == s@.len(),
            i <= n,
            out@ + without_char(s@.skip(i as int), c) == without_char(s@, c),
        decreases n - i,
    {
        let ch = s.get_char(i);
        proof {
            assert(s@.skip(i as int).skip(1) =~= s@.skip(i + 1));
        }
        if ch != c {
            let piece = s.substring_char(i, i + 1);
            out.append(piece);
            proof {
                assert(piece@ =~= seq![ch]);
            }
        }
        proof {
            assert(out@ + without_char(s@.skip(i + 1), c) =~= without_char(s@, c));
        }
        i = i + 1;
    }
    proof {
        assert(s@.skip(n as int) =~= Seq::<char>::empty());
        assert(out@ + Seq::<char>::empty() =~= out@);
    }
    out
}

/// Returns `s` with each escape `\n` turned into a line break.
fn restore_newlines(s: &str) -> (r: String)
    ensures
        r@ == with_newlines(s@),
{
    let n = s.unicode_len();
    let mut out = String::new();
    let mut i: usize = 0;
    proof {
        assert(s@.skip(0) =~= s@);
        assert(out@ + with_newlines(s@) =~= with_newlines(s@));
    }
    while i < n
        invariant
            n == s@.len(),
            i <= n,
            out@ + with_newlines(s@.skip(i as int)) == with_newlines(s@),
        decreases n - i,
    {
        let ch = s.get_char(i);
        if ch == '\\' && i + 1 < n && s.get_char(i + 1) == 'n' {
            let newline = "\n";
            proof {
                reveal_strlit("\n");
                assert(s@.skip(i as int).skip(2) =~= s@.skip(i + 2));
            }
            out.append(newline);
            proof {
                assert(out@ + with_newlines(s@.skip(i + 2)) =~= with_newlines(s@));
            }
            i = i + 2;
        } else {
            let piece = s.substring_char(i, i + 1);
            out.append(piece);
            proof {
                assert(piece@ =~= seq![ch]);
                assert(s@.skip(i as int).skip(1) =~= s@.skip(i + 1));
                assert(out@ + with_newlines(s@.skip(i + 1)) =~= with_newlines(s@));
            }
            i = i + 1;
        }
    }
    proof {
        assert(s@.skip(i as int) =~= Seq::<char>::empty());
        assert(out@ + Seq::<char>::empty() =~= out@);
    }
    out
}

/// Turns the public key text that the modem sends into PEM: removes the
/// quotes, turns each `\n` escape into a line break, then removes the
/// remaining backslashes.
pub fn unescape_public_key(raw: &str) -> (r: String)
    ensures
        r@ == spec_unescape_public_key(raw@),
{
    let unquoted = remove_char(raw, '"');
    let lines = restore_newlines(unquoted.as_str());
    remove_char(lines.as_str(), '\\')
}

/// The JSON body of the modem's login form, from the base64 text of the
/// encrypted user name and password.
pub fn login_json(user: &str, password: &str) -> (r: String)
    ensures
        r@ == spec_login_json(user@, password@),
{
    let mut r = String::from_str("{\"luci_username\":\"");
    r.append(user);
    r.append("\",\"luci_password\":\"");
    r.append(password);
    r.append("\"}");
    r
}

/// The JSON body of the modem's login form, from the encrypted user name
/// and password, each written in standard padded base64.
pub fn login_body(user_enc: &[u8], password_enc: &[u8]) -> (r: String)
    requires
        4 * ((user_enc@.len() + 2) / 3) <= usize::MAX,
        4 * ((password_enc@.len() + 2) / 3) <= usize::MAX,
    ensures
        r@ == spec_login_json(base64_of(user_enc@), base64_of(password_enc@)),
{
    let user = encode_base64(user_enc);
    let password = encode_base64(password_enc);
    login_json(user.as_str(), password.as_str())
}

/// HTTP status of a successful request.
pub const HTTP_OK: u16 = 200;

/// HTTP status of the redirect that answers a successful login.
pub const HTTP_FOUND: u16 = 302;

/// Why a status update of the modem ended.
#[derive(Clone, Copy, Debug, PartialEq, Eq, Structural)]
pub enum Outcome {
    /// No password is configured, so nothing was asked.
    NoPassword,
    /// The public key could not be fetched.
    KeyUnreachable,
    /// The modem answered the public key request with this status.
    KeyRefused(u16),
    /// The login request could not be sent.
    LoginUnreachable,
    /// The modem answered the login with this status.
    LoginRefused(u16),
    /// The status page could not be fetched.
    StatusUnreachable,
    /// The status was read and is to be stored.
    Updated,
}

/// The next request of a status update of the modem, or its end.
#[derive(Clone, Copy, Debug, PartialEq, Eq, Structural)]
pub enum Step {
    /// Fetch the modem's public key.
    FetchKey,
    /// Send the encrypted credentials.
    Login,
    /// Fetch the status page with the session cookie.
    FetchStatus,
    /// Nothing more to ask.
    Done(Outcome),
}

/// The first step of a status update: nothing is asked without a password.
pub fn first_step(password: &str) -> (r: Step)
    ensures
        r == (if password@.len() == 0 {
            Step::Done(Outcome::NoPassword)
        } else {
            Step::FetchKey
        }),
{
    if password.is_empty() {
        Step::Done(Outcome::NoPassword)
    } else {
        Step::FetchKey
    }
}

/// The step after `step`, given the HTTP status that answered its request,
/// or `None` where the request failed.
pub open spec fn spec_next_step(step: Step, answer: Option<u16>) -> Step {
    match step {
        Step::FetchKey => match answer {
            None => Step::Done(Outcome::KeyUnreachable),
            Some(status) => if status == HTTP_OK {
                Step::Login
            } else {
                Step::Done(Outcome::KeyRefused(status))
            },
        },
        Step::Login => match answer {
            None => Step::Done(Outcome::LoginUnreachable),
            Some(status) => if status == HTTP_FOUND {
                Step::FetchStatus
            } else {
                Step::Done(Outcome::LoginRefused(status))
            },
        },
        Step::FetchStatus => match answer {
            None => Step::Done(Outcome::StatusUnreachable),
            Some(_) => Step::Done(Outcome::Updated),
        },
        Step::Done(outcome) => Step::Done(outcome),
    }
}

/// Decides the step after `step` from the answer to its request.
pub fn next_step(step: Step, answer: Option<u16>) -> (r: Step)
    ensures
        r == spec_next_step(step, answer),
{
    match step {
        Step::FetchKey => match answer {
            None => Step::Done(Outcome::KeyUnreachable),
            Some(status) => if status == HTTP_OK {
                Step::Login
            } else {
                Step::Done(Outcome::KeyRefused(status))
            },
        },
        Step::Login => match answer {
            None => Step::Done(Outcome::LoginUnreachable),
            Some(status) => if status == HTTP_FOUND {
                Step::FetchStatus
            } else {
                Step::Done(Outcome::LoginRefused(status))
            },
        },
        Step::FetchStatus => match answer {
            None => Step::Done(Outcome::StatusUnreachable),
            Some(_) => Step::Done(Outcome::Updated),
        },
        Step::Done(outcome) => Step::Done(outcome),
    }
}

} // verus!
