use oc::connect::{
    connecting_text, connection_failed, login, make_pane, op_connect_right, pick_host,
};
use oc::ftp::{
    address, cdup, changed, cmd, connect, cwd, expect, file_entries, list, parse_ls, pasv_addr,
    passive_reply, pwd, response, Login, LoginStep, ReplyState, ReplyStep,
};
use oc::netrc::{load_netrc, netrc_creds};

fn ok(code: u16, text: &str) -> Result<(u16, String), String> {
    Ok((code, text.to_string()))
}

fn reply(lines: &[&str]) -> Option<(u16, String)> {
    let mut state = ReplyState::First;
    for l in lines {
        match response(state, l) {
            ReplyStep::Done(code, text) => return Some((code, text)),
            ReplyStep::Wait(s) => state = s,
        }
    }
    None
}

const NETRC: &str = "machine ftp.a.org login ann password secret-a\n\
                     machine b\n  password pb login bob\n\
                     default login anonymous password guest\n";

#[test]
fn netrc_entries_are_read() {
    let v = load_netrc(NETRC);
    assert_eq!(v.len(), 3);
    assert_eq!((v[0].machine.as_str(), v[0].login.as_str()), ("ftp.a.org", "ann"));
    assert_eq!((v[1].login.as_str(), v[1].password.as_str()), ("bob", "pb"));
    assert_eq!(v[2].machine, "*");
    assert!(load_netrc("").is_empty());
    assert!(load_netrc("login x password y").is_empty());
    assert_eq!(load_netrc("machine").len(), 1);
    let v = load_netrc("machine machine login login junk password");
    assert_eq!((v[0].machine.as_str(), v[0].login.as_str()), ("machine", "login"));
    assert_eq!(v[0].password, "");
}

#[test]
fn netrc_lookup_takes_the_first_that_fits() {
    let v = load_netrc(NETRC);
    assert_eq!(netrc_creds(&v, "b"), Some(("bob".to_string(), "pb".to_string())));
    assert_eq!(netrc_creds(&v, "other"), Some(("anonymous".to_string(), "guest".to_string())));
    let v = load_netrc("default login d password e machine b login x password y");
    assert_eq!(netrc_creds(&v, "b"), Some(("d".to_string(), "e".to_string())));
    assert_eq!(netrc_creds(&load_netrc("machine a"), "b"), None);
}

#[test]
fn addresses_get_a_port() {
    assert_eq!(address("host"), "host:21");
    assert_eq!(address("host:2121"), "host:2121");
    assert_eq!(cmd("PWD"), "PWD\r\n");
    assert_eq!(cwd("a b"), "CWD a b");
    assert_eq!(cdup(), "CDUP");
}

#[test]
fn replies_of_one_line() {
    assert_eq!(reply(&["220 ready\r\n"]), Some((220, "220 ready".to_string())));
    assert_eq!(reply(&["226\r\n"]), Some((226, "226".to_string())));
    assert_eq!(reply(&[""]), Some((0, "".to_string())));
    assert_eq!(reply(&["hello\n"]), Some((0, "hello".to_string())));
    assert_eq!(reply(&["+12 x"]), Some((12, "+12 x".to_string())));
    assert_eq!(reply(&["é1 x"]), Some((0, "é1 x".to_string())));
    assert_eq!(reply(&["22é x"]), Some((0, "22é x".to_string())));
}

#[test]
fn replies_of_several_lines() {
    let r = reply(&["230-Welcome\r\n", "230-more\r\n", " 230 no\r\n", "230 done\r\n"]);
    assert_eq!(r, Some((230, "230-Welcome".to_string())));
    assert_eq!(reply(&["230-Welcome\r\n", "231 x\r\n"]), None);
    assert_eq!(reply(&["abc-Welcome\r\n", "0 x\r\n"]), Some((0, "abc-Welcome".to_string())));
}

#[test]
fn replies_are_held_to_their_code() {
    assert_eq!(expect(ok(250, "250 ok"), 250), Ok("250 ok".to_string()));
    assert_eq!(
        expect(ok(550, "550 no"), 250),
        Err("got 550 expected 250: 550 no".to_string())
    );
    assert_eq!(expect(Err("broken".to_string()), 250), Err("broken".to_string()));
    assert!(changed(ok(250, "")));
    assert!(!changed(ok(550, "")));
    assert!(!changed(Err("e".to_string())));
}

#[test]
fn logging_in() {
    match connect(Login::Greeting, "ann", "pw", ok(220, "220 hi")) {
        LoginStep::Send(c, next) => {
            assert_eq!(c, "USER ann");
            assert!(matches!(next, Login::User));
        }
        _ => panic!(),
    }
    match connect(Login::User, "ann", "pw", ok(331, "331 pw?")) {
        LoginStep::Send(c, next) => {
            assert_eq!(c, "PASS pw");
            assert!(matches!(next, Login::Password));
        }
        _ => panic!(),
    }
    assert!(matches!(connect(Login::Password, "ann", "pw", ok(230, "230 in")), LoginStep::Done));
    match connect(Login::Password, "ann", "pw", ok(530, "530 no")) {
        LoginStep::Fail(e) => assert_eq!(e, "got 530 expected 230: 530 no"),
        _ => panic!(),
    }
    assert!(matches!(connect(Login::User, "", "", ok(230, "230 in")), LoginStep::Fail(_)));
}

#[test]
fn passive_addresses() {
    let r = ok(227, "227 Entering Passive Mode (192,168,0,1,4,1).");
    assert!(passive_reply(&r));
    assert_eq!(pasv_addr(r), Ok("192.168.0.1:1025".to_string()));
    assert_eq!(
        pasv_addr(ok(227, "( 10 , x, 0,0,1,255,255,9)")),
        Ok("10.0.0.1:65535".to_string())
    );
    assert_eq!(pasv_addr(ok(227, "227 none")), Err("no (".to_string()));
    assert_eq!(pasv_addr(ok(227, "227 (1,2")), Err("no )".to_string()));
    assert_eq!(pasv_addr(ok(227, "227 (1,2,3,4,5)")), Err("bad PASV".to_string()));
    assert_eq!(pasv_addr(ok(227, "227 (1,2,3,4,5,256)")), Err("bad PASV".to_string()));
    assert_eq!(
        pasv_addr(ok(500, "500 ?")),
        Err("got 500 expected 227: 500 ?".to_string())
    );
    assert_eq!(pasv_addr(Err("gone".to_string())), Err("gone".to_string()));
    assert!(!passive_reply(&ok(227, "227 ) (1,2,3,4,5,6)")));
    assert!(passive_reply(&ok(500, ")(")));
}

#[test]
fn directories_are_quoted() {
    assert_eq!(pwd(ok(257, "257 \"/pub\" is current")), "/pub");
    assert_eq!(pwd(ok(257, "257 \"/a \"\"b\"\"\" is")), "/a \"\"b\"\"");
    assert_eq!(pwd(ok(257, "257 \"\"")), "");
    assert_eq!(pwd(ok(257, "257 \"")), "/");
    assert_eq!(pwd(ok(257, "257 none")), "/");
    assert_eq!(pwd(ok(550, "550 \"/pub\"")), "/");
    assert_eq!(pwd(Err("e".to_string())), "/");
}

#[test]
fn listing_lines_are_read() {
    let e = parse_ls("-rw-r--r-- 1 u g 1234 Jan 1 12:00 my  file.txt").unwrap();
    assert_eq!((e.name.as_str(), e.is_dir, e.size), ("my file.txt", false, 1234));
    let d = parse_ls("drwxr-xr-x 2 u g x Jan 1 2020 pub").unwrap();
    assert_eq!((d.name.as_str(), d.is_dir, d.size), ("pub", true, 0));
    assert!(parse_ls(" drwxr-xr-x 2 u g 1 Jan 1 2020 pub").map(|e| !e.is_dir).unwrap());
    assert!(parse_ls("drwxr-xr-x 2 u g 4096 Jan 1 2020 .").is_none());
    assert!(parse_ls("drwxr-xr-x 2 u g 4096 Jan 1 2020 ..").is_none());
    assert!(parse_ls("total 12").is_none());
    assert!(parse_ls("").is_none());
}

#[test]
fn server_listings_are_sorted() {
    let lines: Vec<String> = [
        "total 3",
        "-rw-r--r-- 1 u g 5 Jan 1 12:00 b",
        "drwxr-xr-x 2 u g 4096 Jan 1 2020 z",
        "-rw-r--r-- 1 u g 6 Jan 1 12:00 B",
        "drwxr-xr-x 2 u g 4096 Jan 1 2020 ..",
        "-rw-r--r-- 1 u g 7 Jan 1 12:00 b",
        "drwxr-xr-x 2 u g 4096 Jan 1 2020 a",
    ]
    .iter()
    .map(|s| s.to_string())
    .collect();
    let v = file_entries(&list(&lines));
    let got: Vec<(&str, bool, u64)> =
        v.iter().map(|e| (e.name.as_str(), e.is_dir, e.size)).collect();
    assert_eq!(got, vec![
        ("a", true, 4096),
        ("z", true, 4096),
        ("B", false, 6),
        ("b", false, 5),
        ("b", false, 7),
    ]);
}

#[test]
fn arguments_name_servers_or_paths() {
    let v = load_netrc("machine ftp.a.org login ann password pa machine nologin");
    let t = make_pane("ftp://ftp.a.org/pub/x", true, &v);
    assert_eq!(t.len(), 1);
    assert_eq!((t[0].host.as_str(), t[0].user.as_str()), ("ftp.a.org", "ann"));
    assert_eq!(t[0].pass, "pa");
    let t = make_pane("ftp://unknown", true, &v);
    assert_eq!((t[0].host.as_str(), t[0].user.as_str()), ("unknown", ""));
    let t = make_pane("ftp.a.org", false, &v);
    assert_eq!((t.len(), t[0].host.as_str()), (1, "ftp.a.org"));
    assert!(make_pane("ftp.a.org", true, &v).is_empty());
    assert!(make_pane("nologin", false, &v).is_empty());
    assert!(make_pane("/tmp", true, &v).is_empty());
    let d = load_netrc("default login any password p");
    let t = make_pane("ftp://h/x", false, &d);
    assert_eq!((t.len(), t[1].host.as_str()), (2, "ftp://h/x"));
}

#[test]
fn servers_are_picked_from_the_list() {
    let v = load_netrc(NETRC);
    let p = pick_host(&v).ok().unwrap();
    assert_eq!(p.title, "FTP (netrc)");
    assert_eq!(p.items, vec!["ftp.a.org", "b", "*"]);
    let t = op_connect_right(&v, 1);
    assert_eq!((t.host.as_str(), t.user.as_str(), t.pass.as_str()), ("b", "bob", "pb"));
    assert_eq!(login(&v, "zzz").user, "anonymous");
    assert_eq!(pick_host(&vec![]).err(), Some(" No ~/.netrc entries found".to_string()));
    assert_eq!(connecting_text("b"), " Connecting to b...");
    assert_eq!(connection_failed("x"), " Connection failed: x");
}
