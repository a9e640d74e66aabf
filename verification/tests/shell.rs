use gus::get_session_script_path;
use gus::get_setup_script;
use gus::str2envkey;

#[test]
fn test_str2envkey_keeps_valid_keys() {
    assert_eq!(str2envkey("gus"), "gus");
    assert_eq!(str2envkey("MY_KEY_2"), "MY_KEY_2");
}

#[test]
fn test_str2envkey_prefixes_bad_start() {
    assert_eq!(str2envkey("1abc"), "_1abc");
}

#[test]
fn test_str2envkey_drops_bad_continuation() {
    assert_eq!(str2envkey("abc-def.ghi"), "abcdefghi");
    assert_eq!(str2envkey(""), "");
}

#[test]
fn test_session_path_stable_for_same_parent() {
    let a = get_session_script_path("/tmp", "gus", 4242);
    let b = get_session_script_path("/tmp", "gus", 4242);
    assert_eq!(a, b);
    assert_eq!(a, "/tmp/gus/session4242.sh");
}

#[test]
fn test_session_path_differs_across_parents() {
    let a = get_session_script_path("/tmp", "gus", 1);
    let b = get_session_script_path("/tmp", "gus", 2);
    assert_ne!(a, b);
    assert_eq!(a, "/tmp/gus/session1.sh");
    assert_eq!(b, "/tmp/gus/session2.sh");
}

#[test]
fn test_setup_script_exact_text() {
    let script = get_setup_script("extra\n", "gus", "/usr/bin/gus", "/tmp/gus/session7.sh");
    let expected = "if [ -z ${GUS_LOADED_FLAG} ]; then\n\
                    export GUS_LOADED_FLAG=1\n\
                    rm -f \"/tmp/gus/session7.sh\"\n\
                    function gus() {\n\
                    \"/usr/bin/gus\" \"$@\"\n\
                    status=$?\n\
                    if [ $status -ne 0 ]; then\n\
                    return $status\n\
                    fi\n\
                    source \"/tmp/gus/session7.sh\"\n\
                    }\n\
                    extra\n\
                    fi\n";
    assert_eq!(script, expected);
}
