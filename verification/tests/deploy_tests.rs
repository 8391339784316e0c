use ankiserver::config::{
    select_cert_and_key, ssl_config, ssl_config_is_defined, syncaddr_config,
};
use ankiserver::paths::is_plain_component;
use ankiserver::deploy::{
    addon_source_dir, ankisyncd_addon_dir, deploy_count_path, deploy_count_plusone,
    parse_deploy_count, parse_version, pc_ver_required, root_dir, rootca_paths,
    server_shortcut_paths, startmenu_paths, version_is_greater,
};
use ankiserver::number::IntParseError;
use ankiserver::users::{addusr_args, chgepass_args, delusr_args, servcert_args, user_list};

#[test]
fn parse_version_reads_every_field() {
    assert_eq!(parse_version("2.1.36"), Some(vec![2, 1, 36]));
    assert_eq!(parse_version("23.10.1"), Some(vec![23, 10, 1]));
    assert_eq!(parse_version("2.1"), Some(vec![2, 1]));
    assert_eq!(parse_version("2.1.x"), None);
    assert_eq!(parse_version(""), None);
    assert_eq!(parse_version("2.1.300"), None);
}

#[test]
fn version_comparison_pads_with_zeros() {
    assert!(version_is_greater(&vec![2, 2], &vec![2, 1, 10]));
    assert!(!version_is_greater(&vec![2, 1], &vec![2, 1, 10]));
    assert!(!version_is_greater(&vec![2, 1, 10, 0], &vec![2, 1, 10]));
    assert!(version_is_greater(&vec![2, 1, 10, 1], &vec![2, 1, 10]));
    assert!(!version_is_greater(&vec![], &vec![]));
}

#[test]
fn pc_ver_required_above_2_1_10() {
    assert!(pc_ver_required(Some("2.1.36")));
    assert!(pc_ver_required(Some("2.1.11")));
    assert!(pc_ver_required(Some("23.10.1")));
    assert!(pc_ver_required(Some("2.2")));
    assert!(!pc_ver_required(Some("2.1.10")));
    assert!(!pc_ver_required(Some("2.1.9")));
    assert!(!pc_ver_required(Some("2.1")));
    assert!(!pc_ver_required(Some("2.0.52")));
    assert!(!pc_ver_required(Some("2.1.beta")));
    assert!(!pc_ver_required(Some("")));
    assert!(!pc_ver_required(None));
}

#[test]
fn deploy_count_reads_blank_as_zero() {
    assert_eq!(parse_deploy_count(""), Ok(0));
    assert_eq!(parse_deploy_count(" \n"), Ok(0));
    assert_eq!(parse_deploy_count("7"), Ok(7));
    assert_eq!(parse_deploy_count("7\n"), Err(IntParseError::InvalidDigit));
    assert_eq!(parse_deploy_count("256"), Err(IntParseError::PosOverflow));
}

#[test]
fn deploy_count_plusone_round_trip() {
    let mut content = String::new();
    for expected in 1..=255u8 {
        content = deploy_count_plusone(&content).unwrap();
        assert_eq!(content, expected.to_string());
        assert_eq!(parse_deploy_count(&content), Ok(expected));
    }
    assert_eq!(deploy_count_plusone("x"), Err(IntParseError::InvalidDigit));
}

#[test]
fn deploy_paths() {
    assert_eq!(root_dir(), "pre");
    assert_eq!(deploy_count_path(), r"pre\deploy_count.txt");
    assert_eq!(ankisyncd_addon_dir("Admin"), r"C:\Users\Admin\AppData\Roaming\Anki2\addons21\ankisyncd");
    assert_eq!(addon_source_dir(r"D:\dep"), r"D:\dep\pre\addon\ankisyncd");
    let r = rootca_paths(r"C:\Users\Admin");
    assert_eq!(r.from, r"C:\Users\Admin\AppData\Local\mkcert\rootCA.pem");
    assert_eq!(r.to, r"C:\Users\Admin\Desktop\rootCA.crt");
    let s = server_shortcut_paths(r"D:\dep", r"C:\Users\Admin");
    assert_eq!(s.from, r"D:\dep\pre\ankisyncd.exe");
    assert_eq!(s.to, r"C:\Users\Admin\Desktop\anki_server.lnk");
    let m = startmenu_paths(r"C:\Users\Admin");
    assert_eq!(m.from, r"C:\Users\Admin\Desktop\anki_server.lnk");
    assert_eq!(m.folder, r"C:\Users\Admin\AppData\Roaming\Microsoft\Windows\Start Menu\Programs\anki_server");
    assert_eq!(m.to, r"C:\Users\Admin\AppData\Roaming\Microsoft\Windows\Start Menu\Programs\anki_server\anki_server.lnk");
}

#[test]
fn syncaddr_config_rewrites_address_lines() {
    let content = "{\r\n  \"syncaddr\": \"http://old\",\n  \"x\": 1\n}\n";
    let out = syncaddr_config(content, "192.168.1.5");
    assert_eq!(out, "{\n\"syncaddr\":\"https://192.168.1.5:27701/\"\n  \"x\": 1\n}\n");
    assert_eq!(syncaddr_config("", "1.2.3.4"), "");
    assert_eq!(syncaddr_config("a\nb\n", "1.2.3.4"), "a\nb\n");
    assert_eq!(syncaddr_config("a\nb", "1.2.3.4"), "a\nb\n");
}

#[test]
fn ssl_config_rewrites_tls_lines() {
    let content = "host=\"0.0.0.0\"\nssl_enable=false\ncert_file=\"\"\nkey_file=\"\"\n";
    let out = ssl_config(content, Some("192.168.1.5+3.pem"), Some("192.168.1.5+3-key.pem"));
    assert_eq!(
        out,
        "host=\"0.0.0.0\"\nssl_enable=true\ncert_file=\"192.168.1.5+3.pem\"\nkey_file=\"192.168.1.5+3-key.pem\"\n"
    );
    let again = ssl_config(&out, Some("192.168.1.5+3.pem"), Some("192.168.1.5+3-key.pem"));
    assert_eq!(again, out);
    assert_eq!(ssl_config("a=1", None, None), "a=1\n");
}

#[test]
fn select_cert_and_key_takes_last_of_each_kind() {
    let names: Vec<String> = ["a.pem", "a-key.pem", "b.pem", "readme.txt", "keyring.txt"]
        .iter()
        .map(|n| n.to_string())
        .collect();
    let (cert, key) = select_cert_and_key(&names);
    assert_eq!(cert.as_deref(), Some("b.pem"));
    assert_eq!(key.as_deref(), Some("a-key.pem"));
    let (c, k) = select_cert_and_key(&vec![]);
    assert!(c.is_none() && k.is_none());
}

#[test]
fn select_cert_and_key_reads_names_not_folders() {
    let names = vec!["192.168.1.5+3.pem".to_string(), "192.168.1.5+3-key.pem".to_string()];
    let (cert, key) = select_cert_and_key(&names);
    assert_eq!(cert.as_deref(), Some("192.168.1.5+3.pem"));
    assert_eq!(key.as_deref(), Some("192.168.1.5+3-key.pem"));
}

#[test]
fn account_command_arguments() {
    assert_eq!(delusr_args(""), None);
    assert_eq!(delusr_args("bob"), Some(vec!["user".to_string(), "-d".to_string(), "bob".to_string()]));
    assert_eq!(chgepass_args("", ""), None);
    assert_eq!(
        chgepass_args("bob", ""),
        Some(vec!["user".to_string(), "-p".to_string(), "bob".to_string(), "".to_string()])
    );
    assert_eq!(
        addusr_args("", "pw"),
        Some(vec!["user".to_string(), "-a".to_string(), "".to_string(), "pw".to_string()])
    );
    assert_eq!(servcert_args("10.0.0.2"), vec!["localhost", "127.0.0.1", "::1", "10.0.0.2"]);
}

#[test]
fn user_list_joins_lines() {
    assert_eq!(user_list(b"alice\nbob\n".to_vec()).unwrap(), "alice bob");
    assert_eq!(user_list(b"  \n".to_vec()).unwrap(), "");
    assert_eq!(user_list(b"a\r\nb".to_vec()).unwrap(), "a\r b");
    assert!(user_list(vec![0xff, 0x61]).is_err());
    let s = "x\ny\n";
    let expected = s.trim().split("\n").collect::<Vec<_>>().join(" ");
    assert_eq!(user_list(s.as_bytes().to_vec()).unwrap(), expected);
}

#[test]
fn ssl_config_defined_only_with_needed_names() {
    let content = "ssl_enable=false\ncert_file=\"\"\nkey_file=\"\"\n";
    assert!(ssl_config_is_defined(content, Some("c.pem"), Some("k.pem")));
    assert!(!ssl_config_is_defined(content, None, Some("k.pem")));
    assert!(!ssl_config_is_defined(content, Some("c.pem"), None));
    assert!(ssl_config_is_defined("ssl_enable cert_file", None, None));
    assert!(ssl_config_is_defined("a=1", None, None));
}

#[test]
fn plain_components() {
    assert!(is_plain_component("Admin"));
    assert!(is_plain_component(""));
    assert!(is_plain_component("1:x"));
    assert!(!is_plain_component(r"\x"));
    assert!(!is_plain_component("/x"));
    assert!(!is_plain_component("C:x"));
}

#[test]
fn user_list_is_one_line() {
    let out = user_list(b"\n a\nb\n\nc \n".to_vec()).unwrap();
    assert_eq!(out, "a b  c");
    assert!(!out.contains('\n'));
}

#[test]
fn syncaddr_config_twice_equals_once() {
    let content = "{\n\"syncaddr\":\"x\"\n}\n";
    let once = syncaddr_config(content, "1.2.3.4");
    assert_eq!(once, "{\n\"syncaddr\":\"https://1.2.3.4:27701/\"\n}\n");
    let twice = syncaddr_config(&once, "1.2.3.4");
    assert_eq!(twice, once);
    let other = "a\nsyncaddr\n";
    let once = syncaddr_config(other, "10.0.0.1");
    assert_eq!(syncaddr_config(&once, "10.0.0.1"), once);
}
