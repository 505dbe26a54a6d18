use openshell_driver_lxd::cloud_init::{cloud_init_user_data, USER_DATA_HEAD, USER_DATA_TAIL};
use openshell_driver_lxd::strmap::StrMap;

fn env(pairs: &[(&str, &str)]) -> StrMap<String> {
    let mut m = StrMap::new();
    for (k, v) in pairs {
        m.insert(k.to_string(), v.to_string());
    }
    m
}

#[test]
fn env_file_is_sorted_and_indented() {
    let out = cloud_init_user_data(&env(&[("B", "2"), ("A", "1")]));
    assert_eq!(out, format!("{}{}{}", USER_DATA_HEAD, "      A=1\n      B=2", USER_DATA_TAIL));
    assert!(out.starts_with("#cloud-config\nusers:\n"));
    assert!(out.contains("    content: |\n      A=1\n      B=2\n  - path: /etc/systemd/"));
    assert!(out.ends_with("  - systemctl enable --now openshell-supervisor.path\n"));
}

#[test]
fn env_file_order_does_not_matter() {
    let a = cloud_init_user_data(&env(&[("X", "1"), ("Y", "2"), ("Z", "3")]));
    let b = cloud_init_user_data(&env(&[("Z", "3"), ("X", "1"), ("Y", "2")]));
    assert_eq!(a, b);
}

#[test]
fn env_file_lines_split_values() {
    let out = cloud_init_user_data(&env(&[("K", "a\r\nb"), ("J", "x\ny")]));
    assert_eq!(
        out,
        format!("{}{}{}", USER_DATA_HEAD, "      J=x\n      y\n      K=a\n      b", USER_DATA_TAIL)
    );
    let empty = cloud_init_user_data(&StrMap::new());
    assert_eq!(empty, format!("{}{}", USER_DATA_HEAD, USER_DATA_TAIL));
    // A trailing newline in a value ends the last line.
    let out = cloud_init_user_data(&env(&[("K", "v\n")]));
    assert_eq!(out, format!("{}{}{}", USER_DATA_HEAD, "      K=v", USER_DATA_TAIL));
    // Byte order: upper case sorts before lower case.
    let out = cloud_init_user_data(&env(&[("a", "1"), ("B", "2")]));
    assert_eq!(out, format!("{}{}{}", USER_DATA_HEAD, "      B=2\n      a=1", USER_DATA_TAIL));
}
