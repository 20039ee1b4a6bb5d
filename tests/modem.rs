use dhatmini::{first_step, login_body, login_json, next_step, unescape_public_key, Outcome, Step};

#[test]
fn unescape_public_key_restores_pem() {
    let raw = "\"-----BEGIN PUBLIC KEY-----\\nMIIBIjAN\\/Bgkq\\nIDAQAB\\n-----END PUBLIC KEY-----\\n\"";
    assert_eq!(
        unescape_public_key(raw),
        "-----BEGIN PUBLIC KEY-----\nMIIBIjAN/Bgkq\nIDAQAB\n-----END PUBLIC KEY-----\n"
    );
}

#[test]
fn unescape_public_key_matches_the_chain_of_replacements() {
    let cases = ["", "abc", "\\\\n", "a\\", "\"\\\"n\"", "x\\ny\\z\\\\nq", "\\n\\n"];
    for raw in cases {
        let expected = raw.replace("\"", "").replace("\\n", "\n").replace("\\", "");
        assert_eq!(unescape_public_key(raw), expected, "for {:?}", raw);
    }
}

#[test]
fn login_json_layout() {
    assert_eq!(login_json("dXNlcg==", "cHc="), "{\"luci_username\":\"dXNlcg==\",\"luci_password\":\"cHc=\"}");
    assert_eq!(login_json("", ""), "{\"luci_username\":\"\",\"luci_password\":\"\"}");
}

#[test]
fn login_body_encodes_in_padded_base64() {
    assert_eq!(login_body(&[1, 2, 3], b"ab"), "{\"luci_username\":\"AQID\",\"luci_password\":\"YWI=\"}");
    assert_eq!(login_body(&[], &[0xFF]), "{\"luci_username\":\"\",\"luci_password\":\"/w==\"}");
}

#[test]
fn no_password_asks_nothing() {
    assert_eq!(first_step(""), Step::Done(Outcome::NoPassword));
    assert_eq!(first_step("secret"), Step::FetchKey);
}

#[test]
fn session_steps_follow_the_answers() {
    assert_eq!(next_step(Step::FetchKey, Some(200)), Step::Login);
    assert_eq!(next_step(Step::FetchKey, Some(404)), Step::Done(Outcome::KeyRefused(404)));
    assert_eq!(next_step(Step::FetchKey, None), Step::Done(Outcome::KeyUnreachable));
    assert_eq!(next_step(Step::Login, Some(302)), Step::FetchStatus);
    assert_eq!(next_step(Step::Login, Some(200)), Step::Done(Outcome::LoginRefused(200)));
    assert_eq!(next_step(Step::Login, None), Step::Done(Outcome::LoginUnreachable));
    assert_eq!(next_step(Step::FetchStatus, Some(500)), Step::Done(Outcome::Updated));
    assert_eq!(next_step(Step::FetchStatus, None), Step::Done(Outcome::StatusUnreachable));
    assert_eq!(next_step(Step::Done(Outcome::Updated), Some(200)), Step::Done(Outcome::Updated));
}
