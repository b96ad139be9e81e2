use rlibrary_core::text::{
    chars_of, cut_before, find_chars, join_chars, join_texts, replace_chars, same_text, split_chars, string_of,
    strip_leading_copies, trim_chars, CharClass,
};

fn chars(s: &str) -> Vec<char> {
    s.chars().collect()
}

#[test]
fn splitting_is_that_of_the_standard_library() {
    for s in ["", ",", "a,b", "a,,b,", "','", "x','y','z", "aaa", "a', 'b", "下','载"] {
        for sep in [",", "','", "aa", "; "] {
            let got: Vec<String> =
                split_chars(&chars(s), &chars(sep)).iter().map(|v| v.iter().collect::<String>()).collect();
            let want: Vec<String> = s.split(sep).map(|p| p.to_string()).collect();
            assert_eq!(got, want, "{s:?} {sep:?}");
        }
    }
}

#[test]
fn joining_what_was_split_gives_the_text_back() {
    for s in ["", "; ", "a=b; c=d", "; ; x", "a;b; c"] {
        let parts = split_chars(&chars(s), &chars("; "));
        assert_eq!(string_of(&join_chars(&parts, &chars("; "))), s);
    }
    let parts = vec!["a=1".to_string(), String::new(), "b=2".to_string()];
    assert_eq!(join_texts(&parts, "; "), "a=1; ; b=2");
    assert_eq!(join_texts(&Vec::new(), "; "), "");
}

#[test]
fn searching_counts_characters() {
    assert_eq!(find_chars(&chars("下载 here"), &chars("here")), Some(3));
    assert_eq!(find_chars(&chars("abab"), &chars("ab")), Some(0));
    assert_eq!(find_chars(&chars("abab"), &chars("abc")), None);
    assert_eq!(find_chars(&chars("ab"), &chars("")), Some(0));
    assert_eq!(find_chars(&chars(""), &chars("a")), None);
}

#[test]
fn trimming_is_that_of_the_standard_library() {
    for s in ["", "  ", " a b ", "\u{3000}x\u{a0}", "\t\n\u{85}y\u{2029}", "\u{200b}z", "'quoted'", "'''"] {
        let by_class: String = trim_chars(&chars(s), CharClass::Whitespace).iter().collect();
        assert_eq!(by_class, s.trim());
        let by_char: String = trim_chars(&chars(s), CharClass::Only('\'')).iter().collect();
        assert_eq!(by_char, s.trim_matches('\''));
    }
    let mut c = 0u32;
    while c <= 0x10ffff {
        if let Some(ch) = char::from_u32(c) {
            assert_eq!(CharClass::Whitespace.includes(ch), ch.is_whitespace());
        }
        c += 1;
    }
    let stripped: String = strip_leading_copies(&chars("0x0x1f"), "0x").iter().collect();
    assert_eq!(stripped, "1f");
}

#[test]
fn replacing_is_that_of_the_standard_library() {
    for s in ["", "aaa", "a&amp;b", "&amp;&amp;", "&am"] {
        let got: String = replace_chars(&chars(s), "&amp;", "&").iter().collect();
        assert_eq!(got, s.replace("&amp;", "&"));
        let twice: String = replace_chars(&chars(s), "aa", "b").iter().collect();
        assert_eq!(twice, s.replace("aa", "b"));
    }
}

#[test]
fn small_pieces() {
    assert!(same_text("下载", "下载"));
    assert!(!same_text("a", "b"));
    assert!(!same_text("a", "ab"));
    assert_eq!(cut_before(&chars("name=value; x"), ";"), "name=value");
    assert_eq!(cut_before(&chars("plain"), ";"), "plain");
    assert_eq!(chars_of("é1"), vec!['é', '1']);
}
