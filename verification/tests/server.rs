use karmabot::outgoing::SlackEndpoint;
use karmabot::scores::ScoreStore;
use karmabot::server::{route, scores_json, KarmaServer, Method, Route};
use karmabot::text::{append_decimal, prefix_before, str_eq};
use rustc_serialize::json::Json;

#[test]
fn server_keeps_what_it_was_given() {
    let mut scores = ScoreStore::new();
    scores.set("alice", 2);
    let server = KarmaServer::new(scores, "http://example.com/hook".to_string());
    assert_eq!(server.endpoint, "http://example.com/hook");
    assert_eq!(server.scores.snapshot(), vec![("alice".to_string(), 2)]);
    assert_eq!(server.scores.get("alice"), 2);
}

#[test]
fn slack_endpoint_has_the_servers_url() {
    let server = KarmaServer::new(ScoreStore::new(), "http://example.com/hook".to_string());
    assert_eq!(
        server.get_slack_endpoint(),
        SlackEndpoint { url: "http://example.com/hook".to_string() }
    );
}

#[test]
fn routes() {
    assert_eq!(route(Method::Get, "/"), Route::Hello);
    assert_eq!(route(Method::Get, "/karma"), Route::Karma);
    assert_eq!(route(Method::Post, "/normalise"), Route::Normalise);
    assert_eq!(route(Method::Post, "/slack"), Route::Slack);
}

#[test]
fn everything_else_is_not_found() {
    assert_eq!(route(Method::Post, "/"), Route::NotFound);
    assert_eq!(route(Method::Post, "/karma"), Route::NotFound);
    assert_eq!(route(Method::Get, "/normalise"), Route::NotFound);
    assert_eq!(route(Method::Get, "/slack"), Route::NotFound);
    assert_eq!(route(Method::Get, ""), Route::NotFound);
    assert_eq!(route(Method::Get, "/karma/"), Route::NotFound);
    assert_eq!(route(Method::Get, "/Karma"), Route::NotFound);
    assert_eq!(route(Method::Post, "/normalize"), Route::NotFound);
    assert_eq!(route(Method::Other, "/"), Route::NotFound);
    assert_eq!(route(Method::Other, "/slack"), Route::NotFound);
}

#[test]
fn statuses() {
    assert_eq!(Route::Hello.status(), 200);
    assert_eq!(Route::Karma.status(), 200);
    assert_eq!(Route::Normalise.status(), 200);
    assert_eq!(Route::Slack.status(), 200);
    assert_eq!(Route::NotFound.status(), 404);
}

#[test]
fn scores_as_json() {
    assert_eq!(scores_json(&vec![]), "{}");
    assert_eq!(scores_json(&vec![("a".to_string(), 2)]), "{\"a\":2}");
    assert_eq!(
        scores_json(&vec![("a".to_string(), 2), ("b".to_string(), -3), ("c".to_string(), 0)]),
        "{\"a\":2,\"b\":-3,\"c\":0}"
    );
}

#[test]
fn scores_json_reads_back() {
    let mut store = ScoreStore::new();
    store.set("zoë \"z\"", i32::MIN);
    store.set("bob", i32::MAX);
    let json = scores_json(&store.snapshot());
    let decoded = Json::from_str(&json).unwrap();
    let object = decoded.as_object().unwrap();
    assert_eq!(object.len(), 2);
    assert_eq!(object.get("zoë \"z\"").unwrap().as_i64(), Some(i32::MIN as i64));
    assert_eq!(object.get("bob").unwrap().as_i64(), Some(i32::MAX as i64));
}

fn dec(n: i32) -> String {
    let mut s = String::from("n=");
    append_decimal(&mut s, n);
    s
}

#[test]
fn decimal_numbers() {
    assert_eq!(dec(0), "n=0");
    assert_eq!(dec(7), "n=7");
    assert_eq!(dec(10), "n=10");
    assert_eq!(dec(-1), "n=-1");
    assert_eq!(dec(1234567890), "n=1234567890");
    assert_eq!(dec(i32::MAX), "n=2147483647");
    assert_eq!(dec(i32::MIN), "n=-2147483648");
    for n in [-1000, -99, -10, -9, 9, 99, 100, 101, 1000, 65536] {
        assert_eq!(dec(n), format!("n={}", n));
    }
}

#[test]
fn prefix_before_a_byte() {
    assert_eq!(prefix_before("a=b=c", b'='), "a");
    assert_eq!(prefix_before("abc", b'='), "abc");
    assert_eq!(prefix_before("=abc", b'='), "");
    assert_eq!(prefix_before("", b'='), "");
    assert_eq!(prefix_before("☃é=x", b'='), "☃é");
}

#[test]
fn str_eq_compares_text() {
    assert!(str_eq("", ""));
    assert!(str_eq("zoë", "zoë"));
    assert!(!str_eq("zoë", "zoe"));
    assert!(!str_eq("a", "ab"));
}
