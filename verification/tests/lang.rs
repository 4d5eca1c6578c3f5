use sally::lang::{
    bcp47, char_script, detect, dominant, has_repeat_loop, should_read_out, Script,
};

#[test]
fn detects_vietnamese() {
    assert_eq!(detect("Chúng ta sẽ họp vào thứ Sáu tới nhé"), Some("vi"));
    assert_eq!(detect("Được rồi, cảm ơn mọi người"), Some("vi"));
}

#[test]
fn detects_vietnamese_common_words_with_plain_tone_marks() {
    // Short streaming fragments are often built only from everyday words
    // with plain tone marks.
    assert_eq!(detect("là"), Some("vi"));
    assert_eq!(detect("có"), Some("vi"));
    assert_eq!(detect("và"), Some("vi"));
    assert_eq!(detect("má"), Some("vi"));
    assert_eq!(detect("nhà"), Some("vi"));
    assert_eq!(detect("vào"), Some("vi"));
    assert_eq!(detect("đi đâu đó"), Some("vi"));
}

#[test]
fn detects_japanese_and_chinese() {
    assert_eq!(detect("来週の金曜日までにお願いします"), Some("ja"));
    assert_eq!(detect("我们下周五开会"), Some("zh"));
}

#[test]
fn detects_korean_thai_hindi() {
    assert_eq!(detect("다음 주 금요일까지 부탁드립니다"), Some("ko"));
    assert_eq!(detect("ประชุมวันศุกร์หน้า"), Some("th"));
    assert_eq!(detect("अगले शुक्रवार तक"), Some("hi"));
}

#[test]
fn plain_latin_is_generic() {
    assert_eq!(detect("Let's meet next Friday about the deadline"), Some("latin"));
    assert_eq!(detect("123 …!?"), None);
}

#[test]
fn bcp47_mapping() {
    assert_eq!(bcp47("Vietnamese"), "vi");
    assert_eq!(bcp47("Japanese"), "ja");
    assert_eq!(bcp47("Unknown Language"), "en");
}

#[test]
fn detects_repeat_loop_in_japanese() {
    let block = "これない警察庁に遺体が送られる予定です。です。";
    let text = format!("{block}{block}");
    assert!(has_repeat_loop(&text));
}

#[test]
fn detects_repeat_loop_in_vietnamese() {
    let block = "Cái này trước cảnh sát sẽ đưa thi thể đến nơi dự kiến. ";
    let text = format!("{block}{block}");
    assert!(has_repeat_loop(&text));
}

#[test]
fn short_natural_repetition_is_not_a_loop() {
    assert!(!has_repeat_loop("no no no I meant Tuesday"));
    assert!(!has_repeat_loop("thank you thank you so much"));
}

#[test]
fn ordinary_text_is_not_a_loop() {
    assert!(!has_repeat_loop(
        "Let's meet next Friday about the deadline and finalize the budget"
    ));
    assert!(!has_repeat_loop(""));
    assert!(!has_repeat_loop("hello"));
}

#[test]
fn readout_is_for_other_languages() {
    assert!(should_read_out("next Friday", "vi"));
    assert!(!should_read_out("hạn chót thứ Sáu", "vi"));
    assert!(!should_read_out("来週の金曜日", "ja"));
}

#[test]
fn scripts_decide_the_language() {
    assert_eq!(char_script('あ', true), Script::Kana);
    assert_eq!(char_script('ạ', true), Script::Vietnamese);
    assert_eq!(char_script('q', true), Script::Latin);
    assert_eq!(char_script('7', false), Script::Other);
    // Half is not more than half.
    assert_eq!(dominant(&vec![Script::Han, Script::Latin]), Some("latin"));
    assert_eq!(dominant(&vec![Script::Han, Script::Han, Script::Latin, Script::Other]), Some("zh"));
    // No script has more than half: the most frequent one counts.
    assert_eq!(dominant(&vec![Script::Han, Script::Hangul]), Some("ko"));
    assert_eq!(dominant(&vec![Script::Thai, Script::Han]), Some("zh"));
    assert_eq!(
        dominant(&vec![Script::Thai, Script::Devanagari, Script::Devanagari, Script::Han]),
        Some("hi")
    );
    assert_eq!(dominant(&vec![Script::Latin, Script::Vietnamese]), Some("vi"));
    assert_eq!(dominant(&vec![Script::Other]), None);
}

#[test]
fn only_a_text_without_letters_has_no_language() {
    assert_eq!(detect("한字"), Some("ko"));
    assert_eq!(detect("12, 34!"), None);
    assert_eq!(detect(""), None);
    // Neither order nor what is no letter matters.
    assert_eq!(detect("字 3,한 - 7"), detect("한字"));
    assert_eq!(detect("àl."), detect("là"));
}
