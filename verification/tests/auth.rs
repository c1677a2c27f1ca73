use codesync::auth::{answer, host_confirmation, Answer, Credentials, Request};

#[test]
fn other_prompts_are_not_host_confirmations() {
    for (prompt, kind) in [
        ("user@host's password: ", ""),
        ("Enter passphrase for key '/tmp/key': ", ""),
        ("Allow access to a private key?", "confirm"),
        ("Please type 'yes', 'no' or the fingerprint: ", ""),
    ] {
        assert!(!host_confirmation(&Request {
            prompt: prompt.into(),
            kind: kind.into()
        }));
    }
}

#[test]
fn host_key_questions_go_to_the_user() {
    for question in [
        "Are you sure you want to continue connecting (yes/no/[fingerprint])? ",
        "Are you sure you want to continue connecting (yes/no)? ",
    ] {
        let request = Request {
            prompt: format!(
                "The authenticity of host 'codesync-server-test' can't be established.\nED25519 key fingerprint is SHA256:test.\n{question}"
            ),
            kind: String::new(),
        };
        assert!(host_confirmation(&request));
        let creds = Credentials {
            login: "secret-test".into(),
            ..Default::default()
        };
        assert_eq!(answer(&request, &creds), Answer::AskTrust);
    }
}

#[test]
fn password_prompts_get_the_login_password_only() {
    let creds = Credentials {
        login: "secret-test".into(),
        ..Default::default()
    };
    let request = Request {
        prompt: "user@host's Password: ".into(),
        kind: String::new(),
    };
    assert_eq!(
        answer(&request, &creds),
        Answer::Password("secret-test".into())
    );
    let confirm = Request {
        prompt: "user@host's password: ".into(),
        kind: "confirm".into(),
    };
    assert_eq!(answer(&confirm, &creds), Answer::Refuse);
    assert_eq!(answer(&request, &Credentials::default()), Answer::Refuse);
    let passphrase = Request {
        prompt: "Enter passphrase for key '/tmp/key': ".into(),
        kind: String::new(),
    };
    assert_eq!(answer(&passphrase, &creds), Answer::Refuse);
}

#[test]
fn sudo_password_follows_the_same_password_switch() {
    let mut creds = Credentials {
        login: "login".into(),
        sudo: "admin".into(),
        same_password: false,
    };
    assert_eq!(creds.sudo_password(), "admin");
    creds.same_password = true;
    assert_eq!(creds.sudo_password(), "login");
}

#[test]
fn token_is_lowercase_hex_pairs() {
    assert_eq!(codesync::auth::token_hex(&vec![0x00, 0x0f, 0xa5, 0xff]), "000fa5ff");
    assert_eq!(codesync::auth::token_hex(&vec![]), "");
    let t = codesync::auth::bridge_token().unwrap();
    assert_eq!(t.len(), 64);
    assert!(t.chars().all(|c| c.is_ascii_digit() || ('a'..='f').contains(&c)));
    assert_ne!(t, codesync::auth::bridge_token().unwrap());
}

#[test]
fn askpass_answer_or_cancellation() {
    assert_eq!(codesync::auth::askpass_outcome(Some("secret".to_string())), Ok("secret".to_string()));
    assert_eq!(
        codesync::auth::askpass_outcome(None),
        Err("Authentication cancelled or credentials unavailable".to_string())
    );
}
