use librustlet::container::{
    event_of, housekeeper, Route, RustletConfig, RustletContainer, Socklet, SockletContainer,
    WebSocketMessageType, WsDecision,
};
use librustlet::dispatch::{assign_session_with, choose_session_id, error_reply, missing_rustlet_reply};
use librustlet::request::{HttpMethod, HttpVersion, RustletRequest};
use librustlet::response::RustletResponse;
use librustlet::session::SessionStore;

#[test]
fn config_default() {
    assert_eq!(RustletConfig::default().session_timeout, 1800);
}

#[test]
fn rustlet_routing() {
    let mut c: RustletContainer<u32> = RustletContainer::new();
    c.add_rustlet("myrustlet", 1).unwrap();
    // no configuration: the mapping is not made
    assert_eq!(c.add_rustlet_mapping("/myrustlet", "myrustlet").unwrap(), false);
    assert_eq!(c.route("/myrustlet"), Route::NotFound);
    assert!(!c.start());
    c.set_config(RustletConfig { session_timeout: 60 }).unwrap();
    assert!(c.start());
    assert_eq!(c.add_rustlet_mapping("/myrustlet", "myrustlet").unwrap(), true);
    assert_eq!(c.route("/myrustlet"), Route::Rustlet("myrustlet".to_string()));
    assert_eq!(c.route("/page.Rsp"), Route::Rsp);
    assert_eq!(c.route("/nothing"), Route::NotFound);
    assert_eq!(c.get_rustlet("myrustlet"), Some(&1));
    assert_eq!(c.get_rustlet("other"), None);
    assert_eq!(c.config().unwrap().session_timeout, 60);
}

#[test]
fn socklet_decisions() {
    let mut s: SockletContainer<&str> = SockletContainer::new();
    s.add_socklet("mysocklet", "handler").unwrap();
    s.add_socklet_mapping("/mysocklet", "mysocklet").unwrap();
    let d = s.decide(None, WebSocketMessageType::Open, Some("/mysocklet"));
    let id = d.bind.expect("bound");
    assert_eq!(d.dispatch, Some(id));
    assert_eq!(s.get_socklet(id), Some(&"handler"));
    assert_eq!(
        s.decide(Some(id), WebSocketMessageType::Text, None),
        WsDecision { bind: None, dispatch: Some(id) }
    );
    assert_eq!(
        s.decide(None, WebSocketMessageType::Text, Some("/mysocklet")),
        WsDecision { bind: None, dispatch: None }
    );
    assert_eq!(
        s.decide(None, WebSocketMessageType::Open, Some("/other")),
        WsDecision { bind: None, dispatch: None }
    );
    assert_eq!(
        s.decide(Some(id.wrapping_add(1)), WebSocketMessageType::Text, None),
        WsDecision { bind: None, dispatch: None }
    );
    s.add_socklet_mapping("/ghost", "unregistered").unwrap();
    assert_eq!(
        s.decide(None, WebSocketMessageType::Open, Some("/ghost")),
        WsDecision { bind: None, dispatch: None }
    );
}

#[test]
fn socklet_events() {
    assert_eq!(event_of(WebSocketMessageType::Open), Socklet::Open);
    assert_eq!(event_of(WebSocketMessageType::Binary), Socklet::Binary);
    assert_eq!(event_of(WebSocketMessageType::Pong), Socklet::Pong);
}

#[test]
fn housekeeping() {
    let mut store = SessionStore::new();
    store.set(1, "a", vec![1]);
    housekeeper(&None, &mut store).unwrap();
    assert_eq!(store.get(1, "a"), Some(vec![1]));
    housekeeper(&Some(RustletConfig { session_timeout: 1800 }), &mut store).unwrap();
    assert_eq!(store.get(1, "a"), Some(vec![1]));
}

fn request_with_cookie(cookie: &str) -> RustletRequest {
    RustletRequest::new(
        "/".to_string(),
        "".to_string(),
        vec![],
        HttpMethod::Get,
        HttpVersion::V11,
        vec![(b"Cookie".to_vec(), cookie.as_bytes().to_vec())],
        true,
    )
}

#[test]
fn session_ids() {
    assert_eq!(choose_session_id(&Some("123".to_string()), 9), 123);
    assert_eq!(choose_session_id(&Some("+5".to_string()), 9), 5);
    assert_eq!(choose_session_id(&Some("-5".to_string()), 9), 9);
    assert_eq!(choose_session_id(&Some("".to_string()), 9), 9);
    assert_eq!(
        choose_session_id(&Some("340282366920938463463374607431768211456".to_string()), 9),
        9
    );
    assert_eq!(
        choose_session_id(&Some("340282366920938463463374607431768211455".to_string()), 9),
        u128::MAX
    );
    assert_eq!(choose_session_id(&None, 9), 9);

    let mut req = request_with_cookie("rustletsessionid=777");
    let mut resp = RustletResponse::new("s".to_string(), false, true, false);
    assign_session_with(&mut req, &mut resp, 5).unwrap();
    let plan = resp.flush().unwrap();
    assert_eq!(plan.headers.unwrap().additional_headers.len(), 0);

    let mut req = request_with_cookie("other=1");
    let mut resp = RustletResponse::new("s".to_string(), false, true, false);
    assign_session_with(&mut req, &mut resp, 123456789012345678901234567890).unwrap();
    let plan = resp.flush().unwrap();
    assert_eq!(
        plan.headers.unwrap().additional_headers,
        vec![(
            "Set-Cookie".to_string(),
            "rustletsessionid=123456789012345678901234567890; path=/".to_string()
        )]
    );
    // the cookie, sent back, names the same session
    let mut back = request_with_cookie("rustletsessionid=123456789012345678901234567890");
    assert_eq!(
        back.get_cookie("rustletsessionid").unwrap(),
        Some("123456789012345678901234567890".to_string())
    );
}

#[test]
fn error_replies() {
    assert_eq!(error_reply(false, true), None);
    assert_eq!(error_reply(true, false), None);
    let b = error_reply(true, true).unwrap();
    let msg = "\n</br>------------------------------------------------------------------------------------------------------------------------------------\n</br>Internal Server error. See logs for details.</body></html>";
    let expected = format!("{:X}\r\n{}\r\n0\r\n\r\n", msg.len(), msg);
    assert_eq!(b, expected.as_bytes().to_vec());
}

#[test]
fn housekeeping_drops_idle_sessions() {
    let mut store = SessionStore::new();
    store.set_at(1, "a", vec![1], 0);
    store.set_at(2, "a", vec![2], 90_000);
    housekeeper(&Some(RustletConfig { session_timeout: 60 }), &mut store).unwrap();
    assert_eq!(store.get(1, "a"), None);
    assert_eq!(store.get(2, "a"), Some(vec![2]));
}

#[test]
fn missing_rustlet_replies() {
    assert_eq!(missing_rustlet_reply(true), (b"0\r\n\r\n".to_vec(), false));
    assert_eq!(missing_rustlet_reply(false), (Vec::new(), true));
}
