use read_text::markup::{remove_code_block, remove_custom_emoji, remove_spoiler};
use read_text::reading::transliterate;
use read_text::speech::hiraganize;
use regex::Regex;

/// Every text of up to `longest` characters over `alphabet`.
fn texts(alphabet: &[char], longest: usize) -> Vec<String> {
    let mut all = vec![String::new()];
    let mut last = vec![String::new()];
    for _ in 0..longest {
        let mut next = Vec::new();
        for text in last.iter() {
            for c in alphabet {
                let mut longer = text.clone();
                longer.push(*c);
                next.push(longer);
            }
        }
        all.extend(next.iter().cloned());
        last = next;
    }
    all
}

#[test]
fn spoiler_is_what_the_pattern_matches() {
    let pattern = Regex::new(r"\|\|[\s\S]*\|\|").unwrap();
    for text in texts(&['|', 'a', '\n'], 8) {
        assert_eq!(remove_spoiler(&text), pattern.replace_all(&text, ""), "{:?}", text);
    }
}

#[test]
fn code_block_is_what_the_pattern_matches() {
    let pattern = Regex::new(r"```[\s\S]*```").unwrap();
    for text in texts(&['`', 'a', '\n'], 9) {
        assert_eq!(remove_code_block(&text), pattern.replace_all(&text, ""), "{:?}", text);
    }
}

#[test]
fn emoji_is_what_the_pattern_matches() {
    let pattern = Regex::new(r"<a?:([^\n][^:\n]*):[0-9]+>").unwrap();
    for text in texts(&['<', 'a', ':', '1', '>', '\n'], 7) {
        assert_eq!(remove_custom_emoji(&text), pattern.replace_all(&text, "${1}"), "{:?}", text);
    }
}

fn read_by_patterns(statement: &Regex, word: &Regex, text: &str) -> String {
    let mut out = String::new();
    let mut last = 0;
    for found in statement.find_iter(text) {
        out.push_str(&text[last..found.start()]);
        for token in word.find_iter(found.as_str()) {
            out.push_str(&transliterate(token.as_str()));
        }
        last = found.end();
    }
    out.push_str(&text[last..]);
    out
}

#[test]
fn latin_words_are_what_the_patterns_match() {
    let statement = Regex::new(r"[a-zA-Z]+(\s+[a-zA-Z]+)*").unwrap();
    let word = Regex::new(r"[a-zA-Z]+").unwrap();
    for text in texts(&['a', 'Z', ' ', '\n', '\u{3000}', 'あ', '1'], 5) {
        assert_eq!(hiraganize(&text), read_by_patterns(&statement, &word, &text), "{:?}", text);
    }
}

#[test]
fn white_space_is_what_the_pattern_matches() {
    let space = Regex::new(r"^\s$").unwrap();
    let mut spaces = 0;
    for code in 0..0x11000u32 {
        if let Some(c) = char::from_u32(code) {
            let text = format!("a{}a", c);
            let runs_together = hiraganize(&text) == hiraganize("aa");
            assert_eq!(runs_together, space.is_match(&c.to_string()), "{:?}", c);
            if runs_together {
                spaces += 1;
            }
        }
    }
    assert_eq!(spaces, 25);
}
