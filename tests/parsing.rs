use cccedict::cedict_entry::CedictEntry;
use cccedict::errors::CedictEntryError;
use cccedict::parsers::{comment, definitions, jyutping, parse_line, pinyin, syllables};
use cccedict::syllable::Syllable;

fn strings(xs: &[&str]) -> Vec<String> {
    xs.iter().map(|x| x.to_string()).collect()
}

#[test]
fn well_formed_line_gives_its_fields() {
    let line = "你嘅 你嘅 [ni3 ge2] {nei5 ge3} /your's (spoken)/ yours /";
    let entry = parse_line(line).unwrap().unwrap();
    assert_eq!(entry.traditional, "你嘅");
    assert_eq!(entry.simplified, "你嘅");
    assert_eq!(
        entry.pinyin,
        Some(vec![Syllable::new("ni", "3"), Syllable::new("ge", "2")])
    );
    assert_eq!(
        entry.jyutping,
        Some(vec![Syllable::new("nei", "5"), Syllable::new("ge", "3")])
    );
    assert_eq!(
        entry.definitions,
        Some(strings(&["your's (spoken)", "yours"]))
    );
}

#[test]
fn fields_may_be_separated_by_several_blanks_and_tabs() {
    let line = "你好\t \t你好  [ni3 hao3]\t{nei5 hou2}   /hello/";
    let entry = parse_line(line).unwrap().unwrap();
    assert_eq!(entry.traditional, "你好");
    assert_eq!(entry.simplified, "你好");
    assert_eq!(entry.definitions, Some(strings(&["hello"])));
    assert_eq!(
        entry.jyutping,
        Some(vec![Syllable::new("nei", "5"), Syllable::new("hou", "2")])
    );
}

#[test]
fn parsing_twice_gives_the_same_result() {
    let line = "抄字典 抄字典 [chao1 zi4dian3] {caau3 zi6 din2} /to search/ # note";
    assert_eq!(parse_line(line), parse_line(line));
    assert_eq!(parse_line("hi"), parse_line("hi"));
}

#[test]
fn empty_pinyin_block_gives_none() {
    let entry = parse_line("𠌥 𠆿 [] {wu1} /(verb) to lean over; to stoop/")
        .unwrap()
        .unwrap();
    assert_eq!(entry.pinyin, None);
    assert_eq!(entry.jyutping, Some(vec![Syllable::new("wu", "1")]));
}

#[test]
fn non_empty_pinyin_block_gives_syllables() {
    assert_eq!(
        pinyin("[ma5]"),
        Ok((String::new(), Some(vec![Syllable::new("ma", "5")])))
    );
}

#[test]
fn blank_pinyin_block_gives_an_empty_sequence() {
    assert_eq!(pinyin("[ ]"), Ok((String::new(), Some(vec![]))));
}

#[test]
fn pinyin_block_must_be_closed() {
    assert_eq!(pinyin("[ni3 hao3"), Err(CedictEntryError));
    assert_eq!(pinyin("ni3]"), Err(CedictEntryError));
}

#[test]
fn absent_jyutping_block_gives_none() {
    let entry = parse_line("以身作則 以身作则 [yi3 shen1 zuo4 ze2] /to set an example (idiom); to serve as a model/")
        .unwrap()
        .unwrap();
    assert_eq!(entry.jyutping, None);
    assert_eq!(
        entry.definitions,
        Some(strings(&["to set an example (idiom); to serve as a model"]))
    );
}

#[test]
fn empty_jyutping_block_is_not_an_entry() {
    assert_eq!(parse_line("你 你 [ni3] {} /you/"), Err(CedictEntryError));
    assert_eq!(jyutping("{}"), Err(CedictEntryError));
}

#[test]
fn run_together_and_spaced_syllables_agree() {
    let expected = vec![Syllable::new("ni", "3"), Syllable::new("hao", "3")];
    assert_eq!(syllables("ni3hao3"), Ok((String::new(), expected.clone())));
    assert_eq!(syllables("ni3 hao3"), Ok((String::new(), expected)));
}

#[test]
fn toneless_syllable_has_empty_tone() {
    assert_eq!(
        syllables("ma"),
        Ok((String::new(), vec![Syllable::new("ma", "")]))
    );
}

#[test]
fn tokenizing_stops_where_no_syllable_starts() {
    assert_eq!(
        syllables("ni3 42x"),
        Ok((" 42x".to_string(), vec![Syllable::new("ni", "3")]))
    );
    assert_eq!(syllables(""), Ok((String::new(), vec![])));
}

#[test]
fn tones_are_kept_as_text() {
    assert_eq!(
        syllables("life42"),
        Ok((String::new(), vec![Syllable::new("life", "42")]))
    );
}

#[test]
fn definitions_are_trimmed() {
    assert_eq!(
        definitions("/ watch a movie / card/"),
        Ok((String::new(), Some(strings(&["watch a movie", "card"]))))
    );
    assert_eq!(
        definitions("/\u{3000}card\u{a0}/"),
        Ok((String::new(), Some(strings(&["card"]))))
    );
}

#[test]
fn blank_definition_is_kept_empty() {
    assert_eq!(
        definitions("/ /"),
        Ok((String::new(), Some(strings(&[""]))))
    );
}

#[test]
fn empty_definition_is_kept() {
    assert_eq!(
        definitions("/a//b/"),
        Ok((String::new(), Some(strings(&["a", "", "b"]))))
    );
    assert_eq!(
        definitions("///"),
        Ok((String::new(), Some(strings(&["", ""]))))
    );
}

#[test]
fn definitions_must_open_with_a_slash() {
    assert_eq!(definitions("x/a/"), Err(CedictEntryError));
    assert_eq!(definitions("/"), Err(CedictEntryError));
    assert_eq!(definitions("none"), Ok(("none".to_string(), None)));
}

#[test]
fn trailing_comment_does_not_change_the_entry() {
    let plain = "抄字典 抄字典 [chao1 zi4dian3] /to search / flip through a dictionary [colloquial]/";
    let commented = "抄字典 抄字典 [chao1 zi4dian3] /to search / flip through a dictionary [colloquial]/ # note";
    let tight = "抄字典 抄字典 [chao1 zi4dian3] /to search / flip through a dictionary [colloquial]/#note";
    assert!(parse_line(plain).unwrap().is_some());
    assert_eq!(parse_line(commented), parse_line(plain));
    assert_eq!(parse_line(tight), parse_line(plain));
}

#[test]
fn empty_definitions_block_gives_none() {
    assert_eq!(definitions("//"), Ok((String::new(), None)));
    let entry = parse_line("你 你 [ni3] //").unwrap().unwrap();
    assert_eq!(entry.definitions, None);
}

#[test]
fn malformed_lines_are_errors() {
    assert_eq!(parse_line("hi"), Err(CedictEntryError));
    assert_eq!(parse_line("你好"), Err(CedictEntryError));
    assert_eq!(
        parse_line("抄字典 [chao1 zi4dian3] /to search / flip through a dictionary [colloquial]/"),
        Err(CedictEntryError)
    );
}

#[test]
fn text_after_the_definitions_is_an_error() {
    assert_eq!(parse_line("你 你 [ni3] /you/ extra"), Err(CedictEntryError));
    assert_eq!(parse_line("你 你 [ni3] hello"), Err(CedictEntryError));
}

#[test]
fn blank_and_comment_lines_give_no_entry() {
    assert_eq!(parse_line(""), Ok(None));
    assert_eq!(parse_line(" \t "), Ok(None));
    assert_eq!(parse_line("# a comment"), Ok(None));
    assert_eq!(parse_line("  # an indented comment"), Ok(None));
}

#[test]
fn commented_out_entry_is_a_comment() {
    assert_eq!(parse_line("# x [a1] /d/"), Ok(None));
    assert_eq!(parse_line("# 一 一 [yi1] /one/"), Ok(None));
    assert!(CedictEntry::new("# 一 一 [yi1] /one/").is_err());
}

#[test]
fn hash_inside_a_head_word_is_no_comment() {
    let entry = parse_line("C# C# [xi1 ya1] /C sharp/").unwrap().unwrap();
    assert_eq!(entry.traditional, "C#");
}

#[test]
fn lone_carriage_return_ends_no_comment() {
    assert_eq!(comment("# a\rb"), Err(CedictEntryError));
    assert_eq!(parse_line("# a\rb"), Err(CedictEntryError));
    assert_eq!(
        comment("# a\r\nb"),
        Ok(("\r\nb".to_string(), ("#".to_string(), " a".to_string())))
    );
}

#[test]
fn new_refuses_lines_without_an_entry() {
    assert!(CedictEntry::new("# only a comment").is_err());
    assert!(CedictEntry::new("").is_err());
}

#[test]
fn new_reads_an_entry() {
    let entry = CedictEntry::new("你好嗎 你好吗 [ni3 hao3 ma5] {nei5 hou2 maa1} /how are you?/").unwrap();
    assert_eq!(entry.traditional, "你好嗎");
    assert_eq!(entry.simplified, "你好吗");
    assert_eq!(
        entry.pinyin,
        Some(vec![
            Syllable::new("ni", "3"),
            Syllable::new("hao", "3"),
            Syllable::new("ma", "5"),
        ])
    );
    assert_eq!(
        entry.jyutping,
        Some(vec![
            Syllable::new("nei", "5"),
            Syllable::new("hou", "2"),
            Syllable::new("maa", "1"),
        ])
    );
    assert_eq!(entry.definitions, Some(strings(&["how are you?"])));
}
