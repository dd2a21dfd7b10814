use pswd::sort::{
    fuzzy_matches, is_subsequence, key_before, pinyin_initials, pinyin_text, sort_key, text_before,
};

#[test]
fn english_and_digits_first() {
    assert_eq!(sort_key("wechat"), (0, "wechat".to_string()));
    assert_eq!(sort_key("12306"), (0, "12306".to_string()));
}

#[test]
fn chinese_sorted_by_pinyin() {
    let mut names = vec!["微信", "支付宝", "百度"];
    names.sort_by_key(|n| sort_key(n));
    assert_eq!(names, vec!["百度", "微信", "支付宝"]);
}

#[test]
fn mixed_groups_ordered() {
    let mut names = vec!["@杂项", "微信", "wechat", "百度"];
    names.sort_by_key(|n| sort_key(n));
    assert_eq!(names, vec!["wechat", "百度", "微信", "@杂项"]);
}

#[test]
fn empty_and_special_last() {
    assert_eq!(sort_key(""), (2, String::new()));
    assert_eq!(sort_key("!!!"), (2, "!!!".to_string()));
    assert_eq!(sort_key("(测试)"), (2, "(测试)".to_string()));
}

#[test]
fn case_insensitive_english() {
    assert_eq!(sort_key("WeChat").1, "wechat");
}

#[test]
fn fuzzy_subsequence_and_pinyin() {
    assert!(fuzzy_matches("微信", "微信"));
    assert!(fuzzy_matches("Google 邮箱", "ggl邮箱"));
    assert!(fuzzy_matches("微信", "wx"));
    assert!(fuzzy_matches("百度", "bd"));
    assert!(fuzzy_matches("微信", "weixin"));
    assert!(fuzzy_matches("淘宝", "taobao"));
    assert!(!fuzzy_matches("微信", "xw"));
    assert!(!fuzzy_matches("google", "lgo"));
    assert!(!fuzzy_matches("google", "gz"));
    assert!(fuzzy_matches("Google", "GGL"));
    assert!(fuzzy_matches("任意", "  "));
}

#[test]
fn is_subsequence_basic() {
    assert!(is_subsequence("weixin", "wx"));
    assert!(is_subsequence("baidu", "bd"));
    assert!(!is_subsequence("wx", "xw"));
    assert!(is_subsequence("abc", "abc"));
    assert!(!is_subsequence("abc", "abcd"));
    assert!(is_subsequence("", ""));
}

#[test]
fn white_space_around_names_is_ignored() {
    assert_eq!(sort_key("  WeChat\t"), (0, "wechat".to_string()));
    assert_eq!(sort_key("\u{3000}微信 "), sort_key("微信"));
}

#[test]
fn pinyin_of_mixed_text() {
    assert_eq!(pinyin_text("微信abc"), "weixinabc");
    assert_eq!(pinyin_initials("微信abc"), "wxabc");
    assert_eq!(pinyin_text(""), "");
    assert_eq!(sort_key("微信"), (1, "weixin".to_string()));
}

#[test]
fn keys_compare_as_tuples_do() {
    let names = ["", "a", "B", "abc", "ab", "微信", "百度", "!x", "9", "é", "阿里云", "Z"];
    for a in names {
        for b in names {
            let (ka, kb) = (sort_key(a), sort_key(b));
            assert_eq!(key_before(&ka, &kb), ka <= kb, "{a} {b}");
            assert_eq!(text_before(a, b), a <= b, "{a} {b}");
        }
    }
}

#[test]
fn subsequences_compose() {
    assert!(is_subsequence("weixin", "wxn"));
    assert!(is_subsequence("wxn", "wn"));
    assert!(is_subsequence("weixin", "wn"));
    assert!(!is_subsequence("", "a"));
    assert!(is_subsequence("abc", ""));
    assert!(!is_subsequence("aab", "abb"));
}

#[test]
fn letter_case_does_not_matter() {
    assert_eq!(sort_key("WeChat"), sort_key("wECHAT"));
    assert_eq!(sort_key("!Ä"), sort_key("!ä"));
    assert_eq!(fuzzy_matches("Google", "ogl"), fuzzy_matches("gOOGLE", "OGL"));
}

#[test]
fn ascii_case_and_outer_space_are_ignored() {
    for text in ["WeChat", "  12306 a", "!x", "微信Pay", "", "(Test) "] {
        assert_eq!(sort_key(text), sort_key(text.trim()));
        assert_eq!(sort_key(text), sort_key(&text.to_ascii_uppercase()));
        assert!(fuzzy_matches(text, text));
        for kw in ["wx", "PAY", " we ", "1a", "微p"] {
            let r = fuzzy_matches(text, kw);
            assert_eq!(fuzzy_matches(text, kw.trim()), r);
            assert_eq!(fuzzy_matches(text, &kw.to_ascii_uppercase()), r);
            assert_eq!(fuzzy_matches(&text.to_ascii_uppercase(), kw), r);
        }
    }
}

#[test]
fn case_and_space_of_any_text_are_ignored() {
    let texts = [
        "Éclair Bar", "ΑΣ", "ΑΣ ", "\u{3000}ΑΣ\u{3000}", "aΣ", "aΣb", "Σa", "a Σ b", "aΣ.b", "İstanbul A",
        "ǅ x", "微信 Pay Ω", "  微信  ", "!É", "\u{3000}", "ΟΔΟΣ a",
    ];
    for text in texts {
        for variant in [text.to_ascii_uppercase(), text.to_ascii_lowercase()] {
            assert_eq!(text.to_lowercase(), variant.to_lowercase());
            assert_eq!(sort_key(text), sort_key(&variant));
            assert!(fuzzy_matches(text, &variant), "{text}");
            assert!(fuzzy_matches(&variant, text), "{text}");
        }
        let (core, lower) = (text.trim(), text.to_lowercase());
        assert_eq!(lower, text.replacen(core, &core.to_lowercase(), 1));
        assert_eq!(sort_key(text), sort_key(core));
        assert!(fuzzy_matches(text, text), "{text}");
        assert!(fuzzy_matches(text, &pinyin_text(text)), "{text}");
        assert!(fuzzy_matches(text, &pinyin_initials(text)), "{text}");
    }
}
