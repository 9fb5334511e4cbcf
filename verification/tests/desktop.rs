use redlib::desktop::{desktop_config_contents, hex_encode, local_url, no_free_port_message, port_candidates, server_args, server_exe_name, usable_secret};

#[test]
fn desktop_launcher_values() {
    assert_eq!(hex_encode(&[0x00, 0xab, 0x7f]), "00ab7f");
    assert_eq!(server_exe_name(true), "redlib.exe");
    assert_eq!(server_exe_name(false), "redlib");
    assert_eq!(port_candidates(8080, 3), vec![8080, 8081, 8082]);
    assert_eq!(port_candidates(65534, 3), vec![65534, 65535, 65535]);
    assert_eq!(no_free_port_message(8080, 20), "No free local port found in range 8080-8100");
    assert_eq!(no_free_port_message(65530, 20), "No free local port found in range 65530-65535");
    assert_eq!(usable_secret("short"), None);
    let s = "x".repeat(32);
    assert_eq!(usable_secret(&format!("  {s}\n")), Some(s));
    assert_eq!(server_args(9000), vec!["--address", "127.0.0.1", "--port", "9000"]);
    assert_eq!(local_url(9000), "http://127.0.0.1:9000/");
    assert!(desktop_config_contents().contains("REDLIB_SECURE_COOKIES = \"false\""));
}
