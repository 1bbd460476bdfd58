use navalyze::handlers::LoginRequest;
use navalyze::navidrome::subsonic::SubsonicAuth;

#[test]
fn subsonic_credentials() {
    let request = LoginRequest { username: "me".into(), password: "sesame".into(), url: "http://nd".into() };
    let auth = SubsonicAuth::new(&request).expect("the random source is available");
    assert_eq!(auth.salt.chars().count(), 8);
    assert!(auth.salt.chars().all(|c| c.is_ascii_alphanumeric()));
    let expected = format!("{:x}", md5::compute(format!("sesame{}", auth.salt)));
    assert_eq!(auth.token, expected);
    assert_ne!(auth.token, format!("sesame{}", auth.salt));
    let names: Vec<&str> = auth.default_params.iter().map(|(k, _)| k.as_str()).collect();
    assert_eq!(names, vec!["u", "s", "t", "c", "v"]);
    assert_eq!(auth.default_params[0].1, "me");
    assert_eq!(auth.default_params[1].1, auth.salt);
    assert_eq!(auth.default_params[2].1, auth.token);
    assert_eq!(auth.default_params[3].1, "Navalyze");
    assert_eq!(auth.default_params[4].1, "1.8.0");
}

#[test]
fn md5_of_known_text() {
    let request = LoginRequest { username: "u".into(), password: String::new(), url: String::new() };
    let auth = SubsonicAuth::new(&request).expect("the random source is available");
    assert_eq!(auth.token.len(), 32);
    assert!(auth.token.chars().all(|c| c.is_ascii_hexdigit() && !c.is_ascii_uppercase()));
}
