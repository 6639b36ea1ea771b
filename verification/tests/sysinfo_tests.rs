use sysfetch::sysinfo::{cpu_model, desktop_name, kstat_value, shell_name};
use sysfetch::text::trim_str;

#[test]
fn shell_unset_is_unknown() {
    assert_eq!(shell_name(None), "Unknown");
}

#[test]
fn shell_takes_last_path_segment() {
    assert_eq!(shell_name(Some("/bin/bash")), "bash");
    assert_eq!(shell_name(Some("/usr/local/bin/fish")), "fish");
    assert_eq!(shell_name(Some("zsh")), "zsh");
    assert_eq!(shell_name(Some("/bin/")), "");
}

#[test]
fn desktop_unset_is_unknown() {
    assert_eq!(desktop_name(None), "Unknown");
}

#[test]
fn desktop_set_passes_through() {
    assert_eq!(desktop_name(Some("GNOME")), "GNOME");
}

#[test]
fn trim_strips_both_ends() {
    assert_eq!(trim_str("  a b \t\n"), "a b");
    assert_eq!(trim_str(""), "");
    assert_eq!(trim_str(" \t\r\n"), "");
    assert_eq!(trim_str("plain"), "plain");
}

#[test]
fn trim_strips_all_unicode_whitespace() {
    assert_eq!(trim_str("\u{000B}x\u{000C}"), "x");
    assert_eq!(trim_str("\u{00A0}\u{0085}x\u{2028}\u{3000}"), "x");
    assert_eq!(trim_str("\u{2000}\u{200A}\u{205F}\u{202F}"), "");
}

#[test]
fn trim_agrees_with_str_trim() {
    let samples = [
        "",
        "  a b \t\n",
        "\u{000B}model\u{000C}",
        "\u{00A0}nbsp bound\u{00A0}",
        "\u{1680}\u{2001}mixed\u{2029}\u{0085}",
        "inner\u{00A0}kept",
        "\u{200B}zero width is not whitespace\u{200B}",
    ];
    for s in samples {
        assert_eq!(trim_str(s), s.trim(), "mismatch on {s:?}");
    }
}

#[test]
fn cpu_model_trims_exotic_whitespace() {
    assert_eq!(
        cpu_model("model name:\u{000B}X", "model name"),
        Some(String::from("X"))
    );
    assert_eq!(
        cpu_model("model name\t: \u{00A0}Wide CPU\u{000C}\n", "model name"),
        Some(String::from("Wide CPU"))
    );
}

#[test]
fn kstat_value_takes_first_tabbed_line() {
    let text = "cpu_info:0:cpu_info0:brand\tFancy CPU 3000\ncpu_info:1:cpu_info1:brand\tOther\n";
    assert_eq!(kstat_value(text), Some(String::from("Fancy CPU 3000")));
}

#[test]
fn kstat_value_skips_lines_without_tab() {
    let text = "no tab here\nstat\t  value  \n";
    assert_eq!(kstat_value(text), Some(String::from("value")));
    assert_eq!(kstat_value("nothing matches"), None);
    assert_eq!(kstat_value(""), None);
}

#[test]
fn cpu_model_finds_first_matching_line() {
    let info = "processor\t: 0\nvendor_id\t: Acme\nmodel name\t: Fancy CPU 3000 @ 2.40GHz\nmodel name\t: Other CPU\n";
    assert_eq!(
        cpu_model(info, "model name"),
        Some(String::from("Fancy CPU 3000 @ 2.40GHz"))
    );
}

#[test]
fn cpu_model_none_when_no_line_matches() {
    let info = "processor\t: 0\nvendor_id\t: Acme\n";
    assert_eq!(cpu_model(info, "model name"), None);
    assert_eq!(cpu_model("", "model name"), None);
}

#[test]
fn cpu_model_none_when_matching_line_has_no_colon() {
    let info = "model name without separator\nmodel name\t: Later CPU\n";
    assert_eq!(cpu_model(info, "model name"), None);
}

#[test]
fn cpu_model_on_unterminated_final_line() {
    let info = "flags\t: fpu\nmodel name : Bare CPU";
    assert_eq!(cpu_model(info, "model name"), Some(String::from("Bare CPU")));
}
