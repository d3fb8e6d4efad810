use cccedict::cedict_entry::CedictEntry;
use cccedict::errors::CedictEntryError;
use cccedict::parsers::{
    cedict_entry, comment, definitions, jyutping, not_whitespace, parse_line, pinyin, syllable,
    syllables,
};
use cccedict::syllable::Syllable;

fn s(x: &str) -> String {
    x.to_string()
}

#[test]
fn test_new() {
    let line = "抄字典 抄字典 [chao1 zi4dian3] /to search / flip through a dictionary [colloquial]/ # adapted from cc-cedict";
    let expected_result = CedictEntry {
        traditional: "抄字典".into(),
        simplified: "抄字典".into(),
        pinyin: Some(vec![
            Syllable::new("chao", "1"),
            Syllable::new("zi", "4"),
            Syllable::new("dian", "3"),
        ]),
        jyutping: None,
        definitions: Some(vec![
            "to search".into(),
            "flip through a dictionary [colloquial]".into(),
        ]),
    };

    match CedictEntry::new(line) {
        Err(_) => panic!(),
        Ok(result) => assert_eq!(result, expected_result),
    }
}

#[test]
fn test_new_with_invalid_lines() {
    let line = "hi";
    match CedictEntry::new(line) {
        Ok(_) => panic!(),
        Err(err) => assert_eq!(err.message(), "invalid cedict entry input"),
    };

    let line = "你好";
    match CedictEntry::new(line) {
        Ok(_) => panic!(),
        Err(err) => assert_eq!(err.message(), "invalid cedict entry input"),
    };

    let line = "抄字典 [chao1 zi4dian3] /to search / flip through a dictionary [colloquial]/ # adapted from cc-cedict";
    match CedictEntry::new(line) {
        Ok(_) => panic!(),
        Err(err) => assert_eq!(err.message(), "invalid cedict entry input"),
    };
}

#[test]
fn test_not_whitespace() {
    assert_eq!(not_whitespace("你好 阿婆"), Ok((s(" 阿婆"), s("你好"))));
    assert_eq!(not_whitespace("你好\t阿婆"), Ok((s("\t阿婆"), s("你好"))));
    assert_eq!(not_whitespace("\t你好阿婆"), Err(CedictEntryError));
}

#[test]
fn test_parse_definitions() {
    assert_eq!(
        definitions("/watch a movie/three goals/card/(deck of playing cards)/"),
        Ok((
            s(""),
            Some(vec![
                "watch a movie".into(),
                "three goals".into(),
                "card".into(),
                "(deck of playing cards)".into(),
            ])
        ))
    )
}

#[test]
fn test_parse_definitions_with_comments() {
    assert_eq!(
        definitions("/watch a movie/three goals/card/(deck of playing cards)/ # hi"),
        Ok((
            s(" # hi"),
            Some(vec![
                "watch a movie".into(),
                "three goals".into(),
                "card".into(),
                "(deck of playing cards)".into(),
            ])
        ))
    );

    assert_eq!(
        definitions("/watch a movie/three goals/card/(deck of playing cards)/# hi"),
        Ok((
            s("# hi"),
            Some(vec![
                "watch a movie".into(),
                "three goals".into(),
                "card".into(),
                "(deck of playing cards)".into(),
            ])
        ))
    )
}

#[test]
fn test_parse_missing_definitions() {
    assert_eq!(definitions("//"), Ok((s(""), None)));
    assert_eq!(definitions(""), Ok((s(""), None)));
}

#[test]
fn test_parse_definitions_are_trimmed() {
    assert_eq!(
        definitions("/  watch a movie  / three goals/card/(deck of playing cards) /"),
        Ok((
            s(""),
            Some(vec![
                "watch a movie".into(),
                "three goals".into(),
                "card".into(),
                "(deck of playing cards)".into(),
            ])
        ))
    )
}

#[test]
fn test_parse_pinyin() {
    assert_eq!(
        pinyin("[ni3 hao3]"),
        Ok((
            s(""),
            Some(vec![Syllable::new("ni", "3"), Syllable::new("hao", "3")])
        ))
    );
}

#[test]
fn test_parse_pinyin_with_irregular_spacing() {
    assert_eq!(
        pinyin("[ni3hao3 ma5]"),
        Ok((
            s(""),
            Some(vec![
                Syllable::new("ni", "3"),
                Syllable::new("hao", "3"),
                Syllable::new("ma", "5")
            ])
        ))
    );

    assert_eq!(
        pinyin("[ ni3hao3 ma5 ]"),
        Ok((
            s(""),
            Some(vec![
                Syllable::new("ni", "3"),
                Syllable::new("hao", "3"),
                Syllable::new("ma", "5")
            ])
        ))
    );
}

#[test]
fn test_parse_empty_pinyin() {
    assert_eq!(pinyin("[]   "), Ok((s("   "), None)));
}

#[test]
fn test_parse_pinyin_syllable() {
    assert_eq!(syllable("ni3"), Ok((s(""), Syllable::new("ni", "3"))));
    assert_eq!(syllable("hao3"), Ok((s(""), Syllable::new("hao", "3"))));
}

#[test]
fn test_parse_pinyin_syllable_without_tone() {
    assert_eq!(syllable("ma"), Ok((s(""), Syllable::new("ma", ""))));
}

#[test]
fn test_parse_syllables() {
    assert_eq!(
        syllables("ni3hao3"),
        Ok((
            s(""),
            vec![Syllable::new("ni", "3"), Syllable::new("hao", "3")]
        ))
    );
}

#[test]
fn test_parse_jyutping() {
    assert_eq!(
        jyutping("{jat1 go3}"),
        Ok((
            s(""),
            vec![Syllable::new("jat", "1"), Syllable::new("go", "3")]
        ))
    );
    assert_eq!(
        jyutping("{jat1go3}"),
        Ok((
            s(""),
            vec![Syllable::new("jat", "1"), Syllable::new("go", "3")]
        ))
    )
}

#[test]
fn test_comments() {
    assert_eq!(
        comment("# this is a comment"),
        Ok((s(""), (s("#"), s(" this is a comment"))))
    )
}

#[test]
fn test_cedict_entry() {
    let line = "抄字典 抄字典 [chao1 zi4dian3] {caau3 zi6 din2} /to search / flip through a dictionary [colloquial]/";
    assert_eq!(
        cedict_entry(line),
        Ok((
            s(""),
            CedictEntry {
                traditional: "抄字典".into(),
                simplified: "抄字典".into(),
                pinyin: Some(vec![
                    Syllable::new("chao", "1"),
                    Syllable::new("zi", "4"),
                    Syllable::new("dian", "3"),
                ]),
                jyutping: Some(vec![
                    Syllable::new("caau", "3"),
                    Syllable::new("zi", "6"),
                    Syllable::new("din", "2"),
                ]),
                definitions: Some(vec![
                    "to search".into(),
                    "flip through a dictionary [colloquial]".into()
                ])
            }
        ))
    )
}

#[test]
fn test_cedict_entry_without_jyutping() {
    let line =
        "抄字典 抄字典 [chao1 zi4dian3] /to search / flip through a dictionary [colloquial]/";
    assert_eq!(
        cedict_entry(line),
        Ok((
            s(""),
            CedictEntry {
                traditional: "抄字典".into(),
                simplified: "抄字典".into(),
                pinyin: Some(vec![
                    Syllable::new("chao", "1"),
                    Syllable::new("zi", "4"),
                    Syllable::new("dian", "3"),
                ]),
                jyutping: None,
                definitions: Some(vec![
                    "to search".into(),
                    "flip through a dictionary [colloquial]".into()
                ])
            }
        ))
    )
}

#[test]
fn test_cedict_entry_with_comment() {
    let line = "抄字典 抄字典 [chao1 zi4dian3] /to search / flip through a dictionary [colloquial]/ # adapted from cc-cedict";
    assert_eq!(
        cedict_entry(line),
        Ok((
            s(" # adapted from cc-cedict"),
            CedictEntry {
                traditional: "抄字典".into(),
                simplified: "抄字典".into(),
                pinyin: Some(vec![
                    Syllable::new("chao", "1"),
                    Syllable::new("zi", "4"),
                    Syllable::new("dian", "3"),
                ]),
                jyutping: None,
                definitions: Some(vec![
                    "to search".into(),
                    "flip through a dictionary [colloquial]".into()
                ])
            }
        ))
    )
}

#[test]
fn test_parse_lines() -> Result<(), CedictEntryError> {
    let lines = [
        "# this is a comment",
        "抄字典 抄字典 [chao1 zi4dian3] {caau3 zi6 din2} /to search / flip through a dictionary [colloquial]/",
        "以身作則 以身作则 [yi3 shen1 zuo4 ze2] /to set an example (idiom); to serve as a model/",
        "𠌥 𠆿 [] {wu1} /(verb) to lean over; to stoop/",
    ];

    for line in lines.iter() {
        parse_line(line)?;
    }

    Ok(())
}
