use readymade::systemd_ini::{SystemdIni, Value};

#[test]
fn test_parse_single_section() {
    let mut ini = SystemdIni::new();
    ini.parse("[Section]\nkey=value");
    assert_eq!(ini.get("Section", "key").unwrap().as_str(), "value");
}

#[test]
fn test_parse_multiple_sections() {
    let mut ini = SystemdIni::new();
    ini.parse("[Section1]\nkey1=value1\n[Section2]\nkey2=value2");
    assert_eq!(ini.get("Section1", "key1").unwrap().as_str(), "value1");
    assert_eq!(ini.get("Section2", "key2").unwrap().as_str(), "value2");
}

#[test]
fn test_parse_multiple_keys_in_section() {
    let mut ini = SystemdIni::new();
    ini.parse("[Section]\nkey1=value1\nkey2=value2");
    assert_eq!(ini.get("Section", "key1").unwrap().as_str(), "value1");
    assert_eq!(ini.get("Section", "key2").unwrap().as_str(), "value2");
}

#[test]
fn test_parse_duplicate_keys() {
    let mut ini = SystemdIni::new();
    ini.parse("[Section]\nkey=value1\nkey=value2");
    assert_eq!(
        ini.get("Section", "key").unwrap().as_array(),
        vec!["value1", "value2"]
    );
}

#[test]
fn test_parse_empty_lines() {
    let mut ini = SystemdIni::new();
    ini.parse("[Section]\n\nkey=value\n\n");
    assert_eq!(ini.get("Section", "key").unwrap().as_str(), "value");
}

#[test]
fn test_parse_whitespace_lines() {
    let mut ini = SystemdIni::new();
    ini.parse("[Section]\n  \nkey = value\n  ");
    assert_eq!(ini.get("Section", "key").unwrap().as_str(), "value");
}

#[test]
fn test_serde() {
    let ini = "[Section1]
key1=value1
key2=value2
[Section2]
key3=value3
key3=value4
";
    let parsed: SystemdIni = SystemdIni::from_str(ini).unwrap();

    println!("{}", parsed.to_text());
    assert_eq!(parsed.get("Section1", "key1").unwrap().as_str(), "value1");
    assert_eq!(parsed.get("Section1", "key2").unwrap().as_str(), "value2");
    assert_eq!(
        parsed.get("Section2", "key3").unwrap().as_array(),
        &["value3", "value4"]
    );
}

#[test]
fn ini_text_round_trip_example() {
    let text = "[A]\nk=1\nk=2\nz=3\n[B]\n";
    let parsed = SystemdIni::from_str(text).unwrap();
    assert_eq!(parsed.to_text(), text);
}

#[test]
fn ini_sections_and_keys_come_out_ordered() {
    let parsed = SystemdIni::from_str("[b]\ny=1\nx=2\n[a]\nq=3\n").unwrap();
    assert_eq!(parsed.to_text(), "[a]\nq=3\n[b]\nx=2\ny=1\n");
}

#[test]
fn ini_value_append_turns_into_array() {
    let mut v = Value::String("a".to_owned());
    v.append("b".to_owned());
    assert_eq!(v, Value::Array(vec!["a".to_owned(), "b".to_owned()]));
    v.append("c".to_owned());
    assert_eq!(v.as_array(), vec!["a", "b", "c"]);
    assert_eq!(v.as_str(), "a");
}

#[test]
fn ini_can_parse_rejects_key_before_header() {
    let ini = SystemdIni::new();
    assert!(!ini.can_parse("key=value\n[S]"));
    assert!(!ini.can_parse("[S]\nno equals sign"));
    assert!(ini.can_parse("[S]\n a = b = c \n"));
    let parsed = SystemdIni::from_str("[S]\n a = b = c \n").unwrap();
    assert_eq!(parsed.get("S", "a").unwrap().as_str(), "b = c");
    assert!(parsed.get("S", "b").is_none());
    assert!(parsed.get("T", "a").is_none());
}

#[test]
fn ini_crlf_lines() {
    let parsed = SystemdIni::from_str("[S]\r\nk=v\r\n").unwrap();
    assert_eq!(parsed.get("S", "k").unwrap().as_str(), "v");
}

#[test]
fn set_value_then_get() {
    let mut ini = SystemdIni::from_str("[Partition]\nType=root\nType=usr").unwrap();
    assert!(ini.has_section("Partition"));
    assert!(!ini.has_section("Other"));
    ini.set_value("Partition", "Type", "esp");
    assert_eq!(ini.get("Partition", "Type").unwrap().as_array(), vec!["esp"]);
    ini.set_value("Partition", "Label", "x");
    assert_eq!(ini.to_text(), "[Partition]\nLabel=x\nType=esp\n");
}

#[test]
fn ini_printed_text_reads_back() {
    let parsed = SystemdIni::from_str("[b]\ny = 1\nx=2\nx=3\n[a]\n\nq=\n[]\nk=v\n").unwrap();
    let again = SystemdIni::from_str(&parsed.to_text()).unwrap();
    assert!(again == parsed);
    assert_eq!(again.get("b", "x").unwrap().as_array(), vec!["2", "3"]);
    assert_eq!(again.get("a", "q").unwrap().as_str(), "");
    assert_eq!(again.get("", "k").unwrap().as_str(), "v");
}
