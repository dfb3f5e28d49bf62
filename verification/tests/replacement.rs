use quote_replacer::mapping::{AppSettings, MappingEntry};
use quote_replacer::text::{chars_of, replace_text};

fn settings_of(pairs: &[(&str, &str)]) -> AppSettings {
    AppSettings::new(pairs.iter().map(|(f, t)| MappingEntry::new(f, t)).collect())
}

fn table_pairs(s: &AppSettings) -> Vec<(String, String)> {
    s.to_hashmap().into_iter().map(|e| (e.from, e.to)).collect()
}

#[test]
fn replace_matches_from_the_left_without_overlap() {
    assert_eq!(replace_text("aaa", "aa", "b"), "ba");
    assert_eq!(replace_text("aaaa", "aa", "b"), "bb");
    assert_eq!(replace_text("abcabc", "bc", "X"), "aXaX");
}

#[test]
fn replace_with_empty_source_inserts_everywhere() {
    assert_eq!(replace_text("abc", "", "x"), "xaxbxcx");
    assert_eq!(replace_text("", "", "x"), "x");
}

#[test]
fn replace_without_match_leaves_text() {
    assert_eq!(replace_text("hello", "z", "y"), "hello");
    assert_eq!(replace_text("", "z", "y"), "");
}

#[test]
fn replace_identity_mapping_leaves_text() {
    assert_eq!(replace_text("a“b”c", "“", "“"), "a“b”c");
}

#[test]
fn replace_agrees_with_std() {
    let texts = ["", "a", "aaa", "“引号”，逗号。", "……省略……", "abcabcab", "ééé", "x……y…"];
    let pats = ["", "a", "aa", "“", "……", "…", "ab", "é", "xyz"];
    let tos = ["", "-", "...", "«»"];
    for t in texts {
        for p in pats {
            for r in tos {
                assert_eq!(replace_text(t, p, r), t.replace(p, r), "{:?} {:?} {:?}", t, p, r);
            }
        }
    }
}

#[test]
fn chars_of_keeps_every_char() {
    assert_eq!(chars_of("a“b"), vec!['a', '“', 'b']);
    assert_eq!(chars_of(""), Vec::<char>::new());
}

#[test]
fn default_mappings_are_the_built_in_list() {
    let d = AppSettings::default_with_defaults();
    assert_eq!(d.mappings.len(), 23);
    assert_eq!(d.mappings[0].from, "\u{201C}");
    assert_eq!(d.mappings[0].to, "\"");
    assert_eq!(d.mappings[19].from, "……");
    assert_eq!(d.mappings[19].to, "...");
    assert_eq!(d.mappings[22].from, "·");
    assert_eq!(d.mappings[22].to, "`");
}

#[test]
fn default_table_keeps_every_default_mapping() {
    let d = AppSettings::default_with_defaults();
    let t = d.to_hashmap();
    assert_eq!(t.len(), 23);
    for (a, b) in t.iter().zip(d.mappings.iter()) {
        assert_eq!(a.from, b.from);
        assert_eq!(a.to, b.to);
    }
}

#[test]
fn table_drops_empty_sources_and_keeps_latest_target() {
    let s = settings_of(&[("a", "1"), ("", "x"), ("b", "2"), ("a", "3")]);
    assert_eq!(
        table_pairs(&s),
        vec![("a".to_string(), "3".to_string()), ("b".to_string(), "2".to_string())]
    );
}

#[test]
fn empty_settings_leave_text() {
    let s = AppSettings::default();
    assert!(s.mappings.is_empty());
    assert_eq!(s.apply_to("“x”"), "“x”");
}

#[test]
fn defaults_convert_chinese_punctuation() {
    let d = AppSettings::default_with_defaults();
    assert_eq!(d.apply_to("“你好”，世界！"), "\"你好\",世界!");
    assert_eq!(d.apply_to("等等……（注：《书》）"), "等等...(注:<书>)");
    assert_eq!(d.apply_to("「甲」『乙』‘丙’、丁；戊？—～·"), "\"甲\"'乙''丙',丁;戊?-~`");
    assert_eq!(d.apply_to("plain text"), "plain text");
}

#[test]
fn mappings_apply_one_after_another() {
    let s = settings_of(&[("a", "b"), ("b", "c")]);
    assert_eq!(s.apply_to("ab"), "cc");
    let s = settings_of(&[("b", "c"), ("a", "b")]);
    assert_eq!(s.apply_to("ab"), "bc");
}

#[test]
fn loaded_settings_win_over_defaults() {
    let loaded = settings_of(&[("x", "y")]);
    let s = AppSettings::from_loaded(Some(loaded));
    assert_eq!(s.mappings.len(), 1);
    assert_eq!(s.mappings[0].from, "x");
    let s = AppSettings::from_loaded(None);
    assert_eq!(s.mappings.len(), 23);
}

#[test]
fn entry_new_and_duplicate() {
    let e = MappingEntry::new("（", "(");
    let d = e.duplicate();
    assert_eq!(d.from, "（");
    assert_eq!(d.to, "(");
    let z = MappingEntry::default();
    assert_eq!(z.from, "");
    assert_eq!(z.to, "");
}

#[test]
fn converting_converted_text_changes_nothing() {
    let d = AppSettings::default_with_defaults();
    let texts = ["“你好”，世界！", "………", "……………", "…", "a——b～～·", "（《「『引』」》）", "plain"];
    for t in texts {
        let once = d.apply_to(t);
        assert_eq!(d.apply_to(&once), once, "{:?}", t);
    }
    assert_eq!(d.apply_to("………"), "...…");
}
