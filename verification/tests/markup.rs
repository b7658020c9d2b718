use read_text::markup::{remove_code_block, remove_custom_emoji, remove_spoiler, replace_url};
use read_text::message::TextMessage;
use read_text::settings::Dict;
use read_text::substitute::replace_by_dict;

fn entry(word: &str, read_word: &str) -> Dict {
    Dict { word: word.to_string(), read_word: read_word.to_string() }
}

#[test]
fn spoiler_goes_with_its_marks() {
    assert_eq!(remove_spoiler("a ||secret|| b"), "a  b");
    assert_eq!("a ||secret|| b".to_string().remove_spoiler(), "a  b");
}

#[test]
fn spoiler_may_span_lines() {
    assert_eq!(remove_spoiler("a ||se\ncr\net|| b"), "a  b");
}

#[test]
fn spoiler_runs_from_the_first_mark_to_the_last() {
    assert_eq!(remove_spoiler("a ||x|| b ||y|| c"), "a  c");
    assert_eq!(remove_spoiler("||||"), "");
    assert_eq!(remove_spoiler("||a|||"), "");
}

#[test]
fn spoiler_without_its_end_stays() {
    assert_eq!(remove_spoiler("a || b"), "a || b");
    assert_eq!(remove_spoiler("|||"), "|||");
    assert_eq!(remove_spoiler("a | b | c"), "a | b | c");
    assert_eq!(remove_spoiler(""), "");
}

#[test]
fn code_block_goes_with_its_fences() {
    assert_eq!(remove_code_block("aaa ``` test ``` bbb"), "aaa  bbb");
    assert_eq!(remove_code_block("```rust\nfn main() {}\n```"), "");
    assert_eq!(remove_code_block("a ```x``` b ```y``` c"), "a  c");
}

#[test]
fn code_block_without_its_end_stays() {
    assert_eq!(remove_code_block("aaa ``` test"), "aaa ``` test");
    assert_eq!(remove_code_block("`````"), "`````");
    assert_eq!(remove_code_block("a `b` c"), "a `b` c");
}

#[test]
fn emoji_gives_way_to_its_name() {
    assert_eq!(remove_custom_emoji("<:dot_war:984676641525612574>"), "dot_war");
    assert_eq!(remove_custom_emoji("x<:a:1>y"), "xay");
}

#[test]
fn animated_emoji_gives_way_to_its_name() {
    assert_eq!(remove_custom_emoji("<a:wave:123456>!"), "wave!");
}

#[test]
fn each_emoji_gives_way_to_its_own_name() {
    assert_eq!(remove_custom_emoji("<:one:1> と <a:two:22>"), "one と two");
    assert_eq!(remove_custom_emoji("<:one:1><:one:1>"), "oneone");
}

#[test]
fn emoji_name_is_taken_as_it_stands() {
    assert_eq!(remove_custom_emoji("<:$0:1>"), "$0");
    assert_eq!(remove_custom_emoji("<:a b:1>"), "a b");
}

#[test]
fn text_without_emoji_stays() {
    for text in ["", "hello", "<>", "<:>", "<::>", "<:a:>", "<:a:b>", "<:a:12", "<:a\n:12>", "<b:a:12>", "< :a:12>", "<a:12>", "a < b : 1 > c"] {
        assert_eq!(remove_custom_emoji(text), text, "{:?}", text);
    }
}

#[test]
fn emoji_is_found_behind_a_broken_one() {
    assert_eq!(remove_custom_emoji("<:a:b> <:c:1>"), "<:a:b> c");
    assert_eq!(remove_custom_emoji("<<:c:1>"), "<c");
}

#[test]
fn link_gives_way_to_a_word() {
    assert_eq!(replace_url("see https://example.com/a?b=1 now"), "see URL now");
    assert_eq!(replace_url("http://a.b と https://c.d"), "URL と URL");
    assert_eq!("https://example.com".to_string().replace_url(), "URL");
}

#[test]
fn link_takes_the_letters_that_follow_it() {
    assert_eq!(replace_url("https://example.comを見て ね"), "URL ね");
}

#[test]
fn text_without_link_stays() {
    for text in ["", "hello", "http:/example.com", "https://", "ftp://example.com"] {
        assert_eq!(replace_url(text), text);
    }
}

#[test]
fn dictionary_replaces_each_place() {
    let dict = vec![entry("w", "わら")];
    assert_eq!(replace_by_dict("www w", &dict), "わらわらわら わら");
    assert_eq!("www".to_string().replace_by_dict(&dict), "わらわらわら");
}

#[test]
fn dictionary_without_entries_changes_nothing() {
    assert_eq!(replace_by_dict("hello", &vec![]), "hello");
}

#[test]
fn dictionary_entries_follow_each_other() {
    let dict = vec![entry("a", "b"), entry("b", "c")];
    assert_eq!(replace_by_dict("ab", &dict), "cc");
    let dict = vec![entry("b", "c"), entry("a", "b")];
    assert_eq!(replace_by_dict("ab", &dict), "bc");
}

#[test]
fn dictionary_does_not_read_again_what_it_put_in() {
    let dict = vec![entry("a", "aa")];
    assert_eq!(replace_by_dict("aaa", &dict), "aaaaaa");
    let dict = vec![entry("aa", "a")];
    assert_eq!(replace_by_dict("aaaa", &dict), "aa");
}

#[test]
fn dictionary_takes_places_from_the_left() {
    let dict = vec![entry("aba", "x")];
    assert_eq!(replace_by_dict("ababa", &dict), "xba");
}

#[test]
fn dictionary_agrees_with_replace_of_the_standard_library() {
    let cases = [
        ("ababa", "aba", "x"),
        ("hello world", "o", "0"),
        ("abc", "", "-"),
        ("", "", "-"),
        ("", "a", "b"),
        ("あいう", "い", ""),
        ("aaa", "aaaa", "b"),
    ];
    for (text, word, read_word) in cases {
        let dict = vec![entry(word, read_word)];
        assert_eq!(replace_by_dict(text, &dict), text.replace(word, read_word));
    }
}
