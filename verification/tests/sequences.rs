use sbv2_core::error::Error;
use sbv2_core::jtalk::JTalkProcess;
use sbv2_core::nlp::{cleaned_text_to_sequence, symbol_to_id};
use sbv2_core::norm::SYMBOLS;
use sbv2_core::tokenizer::{assemble_tokens, tokenize, tokenizer_or_error};
use tokenizers::Tokenizer;
use sbv2_core::tts_util::{
    expand_features, join_words, phone_level_feature_rows, split_segments, spread_word2ph,
    text_sequences, Segment,
    SAMPLE_RATE, SILENCE_SAMPLES,
};

fn owned(items: &[&str]) -> Vec<String> {
    items.iter().map(|s| s.to_string()).collect()
}

fn plain(segments: &Vec<Segment>) -> Vec<(String, bool)> {
    segments.iter().map(|s| (s.text.clone(), s.gap_after)).collect()
}

fn pairs(items: &[(&str, bool)]) -> Vec<(String, bool)> {
    items.iter().map(|(t, g)| (t.to_string(), *g)).collect()
}

fn short_label(phoneme: &str, a: &str, e3: &str, f1: &str) -> String {
    format!("xx^xx-{phoneme}+xx=xx/A:{a}/B:xx-xx_xx/E:xx_xx!{e3}_xx-xx/F:{f1}_xx#xx_xx@xx_xx|xx_xx/G:xx")
}

fn tokenizer_json() -> Vec<u8> {
    let json = r#"{
        "version": "1.0",
        "truncation": null,
        "padding": null,
        "added_tokens": [],
        "normalizer": null,
        "pre_tokenizer": null,
        "post_processor": null,
        "decoder": null,
        "model": {
            "type": "WordLevel",
            "vocab": {"[UNK]": 0, "a": 5, "b": 6, "世": 7},
            "unk_token": "[UNK]"
        }
    }"#;
    json.as_bytes().to_vec()
}

fn read_tokenizer(bytes: &[u8]) -> Result<Tokenizer, Error> {
    tokenizer_or_error(Tokenizer::from_bytes(bytes).map_err(|e| e.to_string()))
}

fn encode_with(tokenizer: &Tokenizer, c: char) -> Result<(Vec<u32>, Vec<u32>), String> {
    match tokenizer.encode(c.to_string(), false) {
        Ok(token) => Ok((token.get_ids().to_vec(), token.get_attention_mask().to_vec())),
        Err(e) => Err(e.to_string()),
    }
}

#[test]
fn symbols_are_numbered_by_their_place() {
    assert_eq!(symbol_to_id("_"), Some(0));
    assert_eq!(symbol_to_id("AA"), Some(1));
    assert_eq!(symbol_to_id("a"), Some(8));
    assert_eq!(symbol_to_id("!"), Some(103));
    assert_eq!(symbol_to_id("UNK"), Some(111));
    assert_eq!(symbol_to_id(""), None);
    assert_eq!(symbol_to_id("ー"), None);
    assert_eq!(symbol_to_id("gw"), None);
    for (i, symbol) in SYMBOLS.iter().enumerate() {
        assert_eq!(symbol_to_id(symbol), Some(i as i64));
    }
}

#[test]
fn phonemes_and_tones_become_numbers() {
    let (phones, tones, lang_ids) =
        cleaned_text_to_sequence(owned(&["_", "k", "o", "!", "_"]), vec![0, 0, 1, 0, 0]);
    assert_eq!(phones, vec![0, 57, 65, 103, 0]);
    assert_eq!(tones, vec![6, 6, 7, 6, 6]);
    assert_eq!(lang_ids, vec![1, 1, 1, 1, 1]);
}

#[test]
fn tones_and_phonemes_need_not_be_equally_many() {
    let (phones, tones, lang_ids) = cleaned_text_to_sequence(owned(&["a"]), vec![-1, i32::MAX]);
    assert_eq!(phones, vec![8]);
    assert_eq!(tones, vec![5, i32::MAX as i64 + 6]);
    assert_eq!(lang_ids, vec![1]);
}

#[test]
fn counts_are_doubled_and_the_pad_takes_the_blank_more() {
    assert_eq!(spread_word2ph(&vec![1, 3, 2, 1]).unwrap(), vec![3, 4, 4, 2]);
    assert_eq!(spread_word2ph(&vec![1, 1]).unwrap(), vec![3, 2]);
    assert_eq!(spread_word2ph(&vec![1, 1, 1]).unwrap(), vec![3, 0, 2]);
    assert_eq!(spread_word2ph(&vec![4]).unwrap(), vec![9]);
}

#[test]
fn counts_that_cannot_be_spread() {
    assert!(matches!(spread_word2ph(&vec![]), Err(Error::ValueError(_))));
    assert!(matches!(spread_word2ph(&vec![1, 0, 1]), Err(Error::ValueError(_))));
    assert!(matches!(spread_word2ph(&vec![usize::MAX / 2 + 1, 1]), Err(Error::ValueError(_))));
    assert!(matches!(spread_word2ph(&vec![1, usize::MAX]), Err(Error::ValueError(_))));
    assert_eq!(
        spread_word2ph(&vec![usize::MAX / 2, usize::MAX / 2]).unwrap(),
        vec![usize::MAX, usize::MAX - 1]
    );
}

#[test]
fn each_feature_column_repeats_its_entry() {
    assert_eq!(phone_level_feature_rows(&vec![3, 0, 2, 1]), vec![0, 0, 0, 2, 2, 3]);
    assert_eq!(phone_level_feature_rows(&vec![]), Vec::<usize>::new());
    assert_eq!(phone_level_feature_rows(&vec![0, 0]), Vec::<usize>::new());
}

#[test]
fn a_text_is_spoken_line_by_line() {
    assert_eq!(plain(&split_segments("a\nb", true)), pairs(&[("a", true), ("b", false)]));
    assert_eq!(plain(&split_segments("a", true)), pairs(&[("a", false)]));
    assert_eq!(plain(&split_segments("a\n\nb", true)), pairs(&[("a", true), ("b", false)]));
    assert_eq!(plain(&split_segments("a\n", true)), pairs(&[("a", false)]));
    assert_eq!(plain(&split_segments("\na\n\n", true)), pairs(&[("a", false)]));
    assert_eq!(
        plain(&split_segments("a\n\n\nb\n\nc\n\n", true)),
        pairs(&[("a", true), ("b", true), ("c", false)])
    );
    assert_eq!(plain(&split_segments("", true)), pairs(&[]));
    assert_eq!(plain(&split_segments("\n\n", true)), pairs(&[]));
    assert_eq!(
        plain(&split_segments("こんにちは\n世界\nまた", true)),
        pairs(&[("こんにちは", true), ("世界", true), ("また", false)])
    );
}

#[test]
fn a_text_is_spoken_in_one_go() {
    assert_eq!(plain(&split_segments("a\nb", false)), pairs(&[("a\nb", false)]));
    assert_eq!(plain(&split_segments("", false)), pairs(&[("", false)]));
}

#[test]
fn silence_lasts_half_a_second() {
    assert_eq!(SILENCE_SAMPLES * 2, SAMPLE_RATE as usize);
}

#[test]
fn words_are_joined() {
    let words: Vec<Vec<char>> = vec!["世界".chars().collect(), vec![], vec!['!']];
    assert_eq!(join_words(&words), vec!['世', '界', '!']);
    assert_eq!(join_words(&vec![]), Vec::<char>::new());
}

#[test]
fn the_sequences_of_a_sentence() {
    let parsed = owned(&["世,名詞,一般,*,*,*,*,世,ヨ,ヨ,1/1,0", "！,記号,一般,*,*,*,*,！,、,、,0/0,0"]);
    let labels = vec![
        short_label("sil", "xx+xx+xx", "xx", "xx"),
        short_label("y", "0+1+1", "xx", "1"),
        short_label("o", "0+1+1", "xx", "1"),
        short_label("sil", "xx+xx+xx", "0", "xx"),
    ];
    let process = JTalkProcess::new(parsed, labels);
    let (phones, tones, word2ph) = process.g2p().unwrap();
    assert_eq!(phones, owned(&["_", "y", "o", "!", "_"]));
    assert_eq!(tones, vec![0, 0, 0, 0, 0]);
    assert_eq!(word2ph, vec![1, 3, 1, 1]);
    let s = text_sequences(&process).unwrap();
    assert_eq!(s.text, "世!");
    assert_eq!(s.phones, vec![0, 0, 99, 0, 65, 0, 103, 0, 0, 0, 0]);
    assert_eq!(s.tones, vec![6, 0, 6, 0, 6, 0, 6, 0, 6, 0, 0]);
    assert_eq!(s.lang_ids, vec![1, 0, 1, 0, 1, 0, 1, 0, 1, 0, 0]);
    assert_eq!(s.word2ph, vec![3, 4, 2, 2]);
    assert_eq!(s.word2ph.len(), s.text.chars().count() + 2);
    assert_eq!(s.word2ph.iter().sum::<usize>(), s.phones.len());
    assert_eq!(phone_level_feature_rows(&s.word2ph).len(), s.phones.len());
}

#[test]
fn a_phoneme_that_is_no_symbol_is_refused() {
    let parsed = owned(&["ヵ,名詞,一般,*,*,*,*,ヵ,ヵ,ヵ,1/1,0"]);
    let labels = vec![
        short_label("sil", "xx+xx+xx", "xx", "xx"),
        short_label("ヵ", "0+1+1", "xx", "1"),
        short_label("sil", "xx+xx+xx", "0", "xx"),
    ];
    let process = JTalkProcess::new(parsed, labels);
    assert_eq!(process.g2p().unwrap().0, owned(&["_", "ヵ", "_"]));
    assert!(matches!(text_sequences(&process), Err(Error::ValueError(_))));
}

#[test]
fn token_numbers_stand_between_start_and_end() {
    let (ids, masks) = assemble_tokens(&vec![(vec![5], vec![1]), (vec![], vec![]), (vec![6, 7], vec![1, 0])]);
    assert_eq!(ids, vec![1, 5, 6, 7, 2]);
    assert_eq!(masks, vec![1, 1, 1, 0, 1]);
    assert_eq!(assemble_tokens(&vec![]), (vec![1, 2], vec![1, 1]));
}

#[test]
fn a_text_is_encoded_character_by_character() {
    let tokenizer = read_tokenizer(&tokenizer_json()).unwrap();
    let (ids, masks) = tokenize("ab世x", |c| encode_with(&tokenizer, c)).unwrap();
    assert_eq!(ids, vec![1, 5, 6, 7, 0, 2]);
    assert_eq!(masks, vec![1, 1, 1, 1, 1, 1]);
    assert_eq!(tokenize("", |c| encode_with(&tokenizer, c)).unwrap(), (vec![1, 2], vec![1, 1]));
}

#[test]
fn each_character_is_encoded_once_and_in_its_order() {
    let seen = std::cell::RefCell::new(Vec::new());
    let encode = |c: char| -> Result<(Vec<u32>, Vec<u32>), String> {
        seen.borrow_mut().push(c);
        Ok((vec![c as u32, 0], vec![1, 0]))
    };
    let (ids, masks) = tokenize("ba世", encode).unwrap();
    assert_eq!(ids, vec![1, 98, 0, 97, 0, 0x4e16, 0, 2]);
    assert_eq!(masks, vec![1, 1, 0, 1, 0, 1, 0, 1]);
    assert_eq!(*seen.borrow(), vec!['b', 'a', '世']);
}

#[test]
fn the_first_character_that_is_refused_ends_the_encoding() {
    let seen = std::cell::RefCell::new(Vec::new());
    let encode = |c: char| -> Result<(Vec<u32>, Vec<u32>), String> {
        seen.borrow_mut().push(c);
        if c == 'x' || c == 'y' {
            Err(format!("no {c}"))
        } else {
            Ok((vec![1], vec![1]))
        }
    };
    match tokenize("abxcy", encode) {
        Err(Error::TokenizerError(message)) => assert_eq!(message, "no x"),
        _ => panic!("encoded"),
    }
    assert_eq!(*seen.borrow(), vec!['a', 'b', 'x']);
    let never = |_: char| -> Result<(Vec<u32>, Vec<u32>), String> { Err("never".to_string()) };
    assert_eq!(tokenize("", never).unwrap(), (vec![1, 2], vec![1, 1]));
}

#[test]
fn a_tokenizer_that_is_no_json_is_refused() {
    assert!(matches!(read_tokenizer(b"not json"), Err(Error::TokenizerError(_))));
}

#[test]
fn features_are_repeated_and_turned() {
    let features = vec![vec![1.0f32, 2.0], vec![3.0, 4.0], vec![5.0, 6.0], vec![7.0, 8.0]];
    let out = expand_features(&features, &vec![2, 0, 1], 2).unwrap();
    assert_eq!(out, vec![vec![1.0, 1.0, 5.0], vec![2.0, 2.0, 6.0]]);
    let none: Vec<Vec<f32>> = expand_features(&features, &vec![], 2).unwrap();
    assert_eq!(none, vec![Vec::<f32>::new(), Vec::new()]);
    assert_eq!(expand_features(&features, &vec![1, 1], 0).is_err(), true);
}

#[test]
fn features_that_do_not_fit_are_refused() {
    let features = vec![vec![1u8, 2], vec![3]];
    assert!(matches!(expand_features(&features, &vec![1, 1], 2), Err(Error::ValueError(_))));
    assert!(matches!(expand_features(&features, &vec![1, 1, 1], 2), Err(Error::ValueError(_))));
    assert_eq!(expand_features(&features, &vec![3], 2).unwrap(), vec![vec![1, 1, 1], vec![2, 2, 2]]);
}

#[test]
fn what_reading_a_tokenizer_gave_is_passed_on() {
    match tokenizer_or_error(Err::<Tokenizer, String>("no tokenizer".to_string())) {
        Err(Error::TokenizerError(message)) => assert_eq!(message, "no tokenizer"),
        _ => panic!("read"),
    }
    assert_eq!(tokenizer_or_error(Ok(7u8)).unwrap(), 7);
    let tokenizer = read_tokenizer(&tokenizer_json()).unwrap();
    assert_eq!(tokenize("ba", |c| encode_with(&tokenizer, c)).unwrap().0, vec![1, 6, 5, 2]);
}

#[test]
fn a_tokenizer_is_read_where_the_bytes_are_its_json() {
    assert!(read_tokenizer(&tokenizer_json()).is_ok());
    for bytes in [&b""[..], &b"{}"[..], &b"{\"version\": \"1.0\"}"[..], &[0xff, 0xfe][..]] {
        match read_tokenizer(bytes) {
            Err(Error::TokenizerError(message)) => assert!(!message.is_empty()),
            _ => panic!("read"),
        }
    }
}

#[test]
fn there_is_one_gap_less_than_there_are_segments() {
    for text in ["a", "a\n", "\n\na", "a\nb", "a\n\nb\n", "x\ny\nz", "\n", ""] {
        let segments = split_segments(text, true);
        let spoken = text.split('\n').filter(|line| !line.is_empty()).count();
        assert_eq!(segments.len(), spoken);
        let gaps = segments.iter().filter(|s| s.gap_after).count();
        assert_eq!(gaps, spoken.saturating_sub(1));
        assert!(segments.last().map_or(true, |s| !s.gap_after));
    }
}
