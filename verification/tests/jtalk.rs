use sbv2_core::error::Error;
use sbv2_core::jtalk::JTalkProcess;
use sbv2_core::reading::{column_exec, word_reading_exec};
use sbv2_core::mora::{bundled_table, is_vowel_exec, mora_chars, Mora, MoraChars, MoraFile, MORA_LIST_ADDITIONAL, MORA_LIST_MINIMUM, VOWELS};
use sbv2_core::norm::normalize_text;
use sbv2_core::prosody::{is_infix_exec, voiced_exec};

fn cs(s: &str) -> Vec<char> {
    s.chars().collect()
}

fn list(items: &[&str]) -> Vec<Vec<char>> {
    items.iter().map(|s| cs(s)).collect()
}

fn strings(items: &[&str]) -> Vec<String> {
    items.iter().map(|s| s.to_string()).collect()
}

fn mora(kana: &str, consonant: Option<&str>, vowel: &str) -> MoraChars {
    mora_chars(&Mora {
        mora: kana.to_string(),
        consonant: consonant.map(|c| c.to_string()),
        vowel: vowel.to_string(),
    })
}

fn label(before: &str, phoneme: &str, after: &str, a: &str, e3: &str, f1: &str) -> String {
    format!(
        "xx^{before}-{phoneme}+{after}=xx/A:{a}/B:xx-xx_xx/C:xx_xx+xx/D:xx+xx_xx/E:xx_xx!{e3}_xx-xx/F:{f1}_xx#xx_xx@xx_xx|xx_xx/G:xx_xx%xx_xx_xx/H:xx_xx/I:xx-xx@xx+xx&xx-xx|xx+xx/J:xx_xx/K:xx+xx-xx"
    )
}

/// The labels of 「こんにちは、世界！」: a flat word of five moras, a pause,
/// and a word of three moras with its accent on the first.
fn hello_world_labels() -> Vec<String> {
    let phonemes = [
        ("sil", "xx+xx+xx", "xx"),
        ("k", "-4+1+5", "5"),
        ("o", "-4+1+5", "5"),
        ("N", "-3+2+4", "5"),
        ("n", "-2+3+3", "5"),
        ("i", "-2+3+3", "5"),
        ("ch", "-1+4+2", "5"),
        ("i", "-1+4+2", "5"),
        ("w", "0+5+1", "5"),
        ("a", "0+5+1", "5"),
        ("pau", "xx+xx+xx", "xx"),
        ("s", "0+1+3", "3"),
        ("e", "0+1+3", "3"),
        ("k", "1+2+2", "3"),
        ("a", "1+2+2", "3"),
        ("i", "2+3+1", "3"),
        ("sil", "xx+xx+xx", "xx"),
    ];
    let mut labels = Vec::new();
    for (i, (p, a, f1)) in phonemes.iter().enumerate() {
        let before = if i == 0 { "xx" } else { phonemes[i - 1].0 };
        let after = if i + 1 == phonemes.len() { "xx" } else { phonemes[i + 1].0 };
        let e3 = if i + 1 == phonemes.len() { "0" } else { "xx" };
        labels.push(label(before, p, after, a, e3, f1));
    }
    labels
}

fn hello_world_parsed() -> Vec<String> {
    strings(&[
        "こんにちは,感動詞,*,*,*,*,*,こんにちは,コンニチハ,コンニチワ,0/5,-1",
        "，,記号,読点,*,*,*,*,，,、,、,0/0,0",
        "世界,名詞,一般,*,*,*,*,世界,セカイ,セ’カイ,1/3,0",
        "！,記号,一般,*,*,*,*,！,、,、,0/0,0",
    ])
}

#[test]
fn tone_fix_up_passes_all_zero() {
    assert_eq!(JTalkProcess::fix_phone_tone(&vec![0, 0, 0]).unwrap(), vec![0, 0, 0]);
    assert_eq!(JTalkProcess::fix_phone_tone(&vec![0]).unwrap(), vec![0]);
}

#[test]
fn tone_fix_up_passes_low_and_high() {
    assert_eq!(JTalkProcess::fix_phone_tone(&vec![0, 1, 1, 0]).unwrap(), vec![0, 1, 1, 0]);
}

#[test]
fn tone_fix_up_raises_fall_to_low_and_high() {
    assert_eq!(JTalkProcess::fix_phone_tone(&vec![0, 0, -1, -1]).unwrap(), vec![1, 1, 0, 0]);
    assert_eq!(JTalkProcess::fix_phone_tone(&vec![-1, 0]).unwrap(), vec![0, 1]);
}

#[test]
fn tone_fix_up_refuses_three_tones() {
    assert!(matches!(JTalkProcess::fix_phone_tone(&vec![0, 1, 2]), Err(Error::ValueError(_))));
    assert!(matches!(JTalkProcess::fix_phone_tone(&vec![-1, 0, 1]), Err(Error::ValueError(_))));
}

#[test]
fn tone_fix_up_refuses_other_sets() {
    for tones in [vec![], vec![1], vec![-1], vec![1, 1], vec![0, 2], vec![-1, 1], vec![0, -2], vec![5]] {
        assert!(matches!(JTalkProcess::fix_phone_tone(&tones), Err(Error::ValueError(_))));
    }
}

#[test]
fn the_refusal_of_tones_tells_two_tones_from_any_other() {
    for tones in [vec![0, 2], vec![-1, 1], vec![0, -2], vec![1, 2, 2, 1], vec![-1, 1, -1]] {
        match JTalkProcess::fix_phone_tone(&tones) {
            Err(Error::ValueError(message)) => assert_eq!(message, "Invalid tone values 0"),
            _ => panic!("two tones that are no pair must be refused"),
        }
    }
    for tones in [vec![], vec![1], vec![-1], vec![1, 1], vec![5], vec![0, 1, 2], vec![-1, 0, 1], vec![0, 1, 0, -1]] {
        match JTalkProcess::fix_phone_tone(&tones) {
            Err(Error::ValueError(message)) => assert_eq!(message, "Invalid tone values 1"),
            _ => panic!("these tones must be refused"),
        }
    }
}

#[test]
fn phonemes_are_dealt_out_evenly_the_first_units_first() {
    assert_eq!(JTalkProcess::distribute_phone(9, 5), vec![2, 2, 2, 2, 1]);
    assert_eq!(JTalkProcess::distribute_phone(5, 2), vec![3, 2]);
    assert_eq!(JTalkProcess::distribute_phone(1, 1), vec![1]);
    assert_eq!(JTalkProcess::distribute_phone(2, 4), vec![1, 1, 0, 0]);
    assert_eq!(JTalkProcess::distribute_phone(0, 3), vec![0, 0, 0]);
    assert_eq!(JTalkProcess::distribute_phone(6, 3), vec![2, 2, 2]);
    assert_eq!(JTalkProcess::distribute_phone(3, 0), Vec::<usize>::new());
}

#[test]
fn dealt_out_phonemes_add_up() {
    for n_phone in 0..20usize {
        for n_word in 1..7usize {
            let counts = JTalkProcess::distribute_phone(n_phone, n_word);
            assert_eq!(counts.len(), n_word);
            assert_eq!(counts.iter().sum::<usize>(), n_phone);
            assert!(counts.iter().max().unwrap() - counts.iter().min().unwrap() <= 1);
            assert!(counts.windows(2).all(|w| w[0] >= w[1]));
        }
    }
}

#[test]
fn alignment_gives_punctuation_tone_zero() {
    let tones = JTalkProcess::align_tones(
        &list(&["k", "o", ",", "s", "e", "!"]),
        &list(&["k", "o", "s", "e"]),
        &vec![0, 1, 1, 0],
    )
    .unwrap();
    assert_eq!(tones, vec![0, 1, 0, 1, 0, 0]);
}

#[test]
fn alignment_gives_tone_zero_when_the_tones_are_used_up() {
    let tones =
        JTalkProcess::align_tones(&list(&["a", "b", "c"]), &list(&["a"]), &vec![1]).unwrap();
    assert_eq!(tones, vec![1, 0, 0]);
    let none = JTalkProcess::align_tones(&list(&["a"]), &list(&[]), &vec![]).unwrap();
    assert_eq!(none, vec![0]);
}

#[test]
fn alignment_gives_tone_zero_when_the_tones_are_fewer_than_their_phonemes() {
    let tones =
        JTalkProcess::align_tones(&list(&["a", "b"]), &list(&["a", "b"]), &vec![1]).unwrap();
    assert_eq!(tones, vec![1, 0]);
}

#[test]
fn alignment_takes_punctuation_that_carries_a_tone() {
    let tones = JTalkProcess::align_tones(&list(&[",", "a"]), &list(&[",", "a"]), &vec![1, 1])
        .unwrap();
    assert_eq!(tones, vec![1, 1]);
}

#[test]
fn alignment_fails_on_a_phoneme_that_does_not_match() {
    let r = JTalkProcess::align_tones(
        &list(&["k", "o", "x", "e"]),
        &list(&["k", "o", "s", "e"]),
        &vec![0, 1, 1, 0],
    );
    match r {
        Err(Error::MismatchedPhoneme { phone, expected, aligned }) => {
            assert_eq!(phone, "x");
            assert_eq!(expected, "s");
            assert_eq!(aligned, vec![0, 1]);
        }
        _ => panic!("no mismatch"),
    }
}

#[test]
fn mora_expansion_takes_the_longest_mora() {
    let table = vec![mora("キ", Some("k"), "i"), mora("キャ", Some("ky"), "a"), mora("ャ", Some("y"), "a")];
    assert_eq!(JTalkProcess::kata_to_phoneme_list(&cs("キャ"), &table).unwrap(), list(&["ky", "a"]));
    let other_order = vec![mora("キャ", Some("ky"), "a"), mora("ャ", Some("y"), "a"), mora("キ", Some("k"), "i")];
    assert_eq!(
        JTalkProcess::kata_to_phoneme_list(&cs("キャキ"), &other_order).unwrap(),
        list(&["ky", "a", "k", "i"])
    );
}

#[test]
fn mora_expansion_with_the_bundled_table() {
    let table = bundled_table();
    assert_eq!(
        JTalkProcess::kata_to_phoneme_list(&cs("コンニチワ"), &table).unwrap(),
        list(&["k", "o", "N", "n", "i", "ch", "i", "w", "a"])
    );
    assert_eq!(
        JTalkProcess::kata_to_phoneme_list(&cs("キャット"), &table).unwrap(),
        list(&["ky", "a", "q", "t", "o"])
    );
    assert_eq!(
        JTalkProcess::kata_to_phoneme_list(&cs("ヴァイオリン"), &table).unwrap(),
        list(&["v", "a", "i", "o", "r", "i", "N"])
    );
}

#[test]
fn a_later_mora_of_the_same_kana_counts() {
    let table = vec![mora("ア", None, "a"), mora("ア", None, "o")];
    assert_eq!(JTalkProcess::kata_to_phoneme_list(&cs("ア"), &table).unwrap(), list(&["o"]));
}

#[test]
fn long_marks_repeat_the_phoneme_before() {
    let table = bundled_table();
    assert_eq!(
        JTalkProcess::kata_to_phoneme_list(&cs("コーヒー"), &table).unwrap(),
        list(&["k", "o", "o", "h", "i", "i"])
    );
    assert_eq!(
        JTalkProcess::kata_to_phoneme_list(&cs("アーー"), &table).unwrap(),
        list(&["a", "a", "a"])
    );
    assert_eq!(
        JTalkProcess::kata_to_phoneme_list(&cs("ンー"), &table).unwrap(),
        list(&["N", "N"])
    );
}

#[test]
fn a_long_mark_at_the_start_stays() {
    let table = bundled_table();
    assert_eq!(
        JTalkProcess::kata_to_phoneme_list(&cs("ーア"), &table).unwrap(),
        list(&["ー", "a"])
    );
    assert_eq!(
        JTalkProcess::kata_to_phoneme_list(&cs("ーー"), &table).unwrap(),
        list(&["ー", "ー"])
    );
}

#[test]
fn punctuation_is_its_own_phoneme() {
    let table = bundled_table();
    for p in ["!", "?", "…", ",", ".", "'", "-"] {
        assert_eq!(JTalkProcess::kata_to_phoneme_list(&cs(p), &table).unwrap(), list(&[p]));
    }
}

#[test]
fn a_reading_without_katakana_is_refused() {
    let table = bundled_table();
    for text in ["", "abc", "''", "こんにちは", "!?"] {
        assert!(matches!(
            JTalkProcess::kata_to_phoneme_list(&cs(text), &table),
            Err(Error::ValueError(_))
        ));
    }
}

#[test]
fn a_character_that_is_no_mora_is_joined_to_the_phoneme_before() {
    let table = bundled_table();
    assert_eq!(
        JTalkProcess::kata_to_phoneme_list(&cs("カa"), &table).unwrap(),
        list(&["k", "aa"])
    );
    assert_eq!(
        JTalkProcess::kata_to_phoneme_list(&cs("アbヵ"), &table).unwrap(),
        list(&["abヵ"])
    );
    assert_eq!(
        JTalkProcess::kata_to_phoneme_list(&cs("xカyキャz"), &table).unwrap(),
        list(&["x", "k", "ay", "ky", "az"])
    );
    assert_eq!(
        JTalkProcess::kata_to_phoneme_list(&cs("カaー"), &table).unwrap(),
        list(&["k", "aa", "a"])
    );
    assert_eq!(JTalkProcess::kata_to_phoneme_list(&cs("ヵ"), &table).unwrap(), list(&["ヵ"]));
}

#[test]
fn white_space_in_a_reading_is_joined_like_any_character() {
    let table = bundled_table();
    assert_eq!(
        JTalkProcess::kata_to_phoneme_list(&cs("ア イ"), &table).unwrap(),
        list(&["a ", "i"])
    );
    assert_eq!(
        JTalkProcess::kata_to_phoneme_list(&cs(" ア"), &table).unwrap(),
        list(&[" ", "a"])
    );
}

#[test]
fn a_mark_repeats_the_last_character_whatever_it_is() {
    let table = bundled_table();
    assert_eq!(
        JTalkProcess::kata_to_phoneme_list(&cs("カ,ー"), &table).unwrap(),
        list(&["k", "a,", ","])
    );
}

#[test]
fn the_error_for_a_reading_without_katakana_names_the_reading() {
    let table = bundled_table();
    for text in ["abc", "", "''", "こんにちは"] {
        match JTalkProcess::kata_to_phoneme_list(&cs(text), &table) {
            Err(Error::ValueError(message)) => {
                assert_eq!(message, format!("Input must be katakana only: {text}"))
            }
            _ => panic!("read"),
        }
    }
}

#[test]
fn handle_long_takes_the_vowel_of_the_word_before() {
    let words = vec![list(&["k", "a"]), list(&["ー", "ー", "t", "o"]), list(&["ー"])];
    assert_eq!(
        JTalkProcess::handle_long(&words),
        vec![list(&["k", "a"]), list(&["a", "a", "t", "o"]), list(&["o"])]
    );
}

#[test]
fn handle_long_leaves_a_mark_that_has_nothing_before() {
    let first = vec![list(&["ー", "a"])];
    assert_eq!(JTalkProcess::handle_long(&first), vec![list(&["ー", "a"])]);
    let after_consonant = vec![list(&["k"]), list(&["ー"])];
    assert_eq!(JTalkProcess::handle_long(&after_consonant), vec![list(&["k"]), list(&["ー"])]);
    let after_nothing = vec![list(&[]), list(&["ー", "ー"])];
    assert_eq!(JTalkProcess::handle_long(&after_nothing), vec![list(&[]), list(&["ー", "ー"])]);
    let after_punctuation = vec![list(&[","]), list(&["ー", "i"])];
    assert_eq!(JTalkProcess::handle_long(&after_punctuation), vec![list(&[","]), list(&["ー", "i"])]);
}

#[test]
fn handle_long_repeats_the_last_character_inside_a_word() {
    let words = vec![list(&["ky", "ー", "N", "ー"])];
    assert_eq!(JTalkProcess::handle_long(&words), vec![list(&["ky", "y", "N", "N"])]);
}

#[test]
fn columns_of_a_feature_line() {
    let line = cs("a,b,,d");
    assert_eq!(column_exec(&line, 0), Some(cs("a")));
    assert_eq!(column_exec(&line, 1), Some(cs("b")));
    assert_eq!(column_exec(&line, 2), Some(cs("")));
    assert_eq!(column_exec(&line, 3), Some(cs("d")));
    assert_eq!(column_exec(&line, 4), None);
    assert_eq!(column_exec(&cs(""), 0), Some(cs("")));
    assert_eq!(column_exec(&cs("a,"), 1), Some(cs("")));
}

#[test]
fn word_and_reading_of_a_feature_line() {
    let (word, yomi) =
        word_reading_exec(&cs("世界,名詞,一般,*,*,*,*,世界,セカイ,セ’カイ,1/3,0")).unwrap();
    assert_eq!((word, yomi), (cs("世界"), cs("セカイ")));
    let (word, yomi) = word_reading_exec(&cs("，,記号,読点,*,*,*,*,，,、,、,0/0,0")).unwrap();
    assert_eq!((word, yomi), (cs(","), cs(",")));
    let (word, yomi) = word_reading_exec(&cs("？,記号,一般,*,*,*,*,？,？,？,0/0,0")).unwrap();
    assert_eq!((word, yomi), (cs("?"), cs("?")));
}

#[test]
fn an_unreadable_word_is_read_as_one_mark_for_each_byte() {
    let (word, yomi) = word_reading_exec(&cs("x,記号,一般,*,*,*,*,x,、,、,0/0,0")).unwrap();
    assert_eq!((word, yomi), (cs("x"), cs("'")));
    let (word, yomi) = word_reading_exec(&cs("Ω,記号,一般,*,*,*,*,Ω,、,、,0/0,0")).unwrap();
    assert_eq!((word, yomi), (cs("Ω"), cs("''")));
    let (word, yomi) = word_reading_exec(&cs("鬱a,記号,一般,*,*,*,*,*,、,、,0/0,0")).unwrap();
    assert_eq!((word, yomi), (cs("鬱a"), cs("''''")));
}

#[test]
fn a_word_that_is_dropped_is_read_as_nothing() {
    let (word, yomi) = word_reading_exec(&cs("♪,記号,一般,*,*,*,*,♪,、,、,0/0,0")).unwrap();
    assert_eq!((word, yomi), (cs(""), cs("")));
}

#[test]
fn feature_lines_that_give_no_reading() {
    for line in [
        "世界,名詞,一般",
        "世界,名詞,一般,*,*,*,*,世界,セカイ,,1/3,0",
        "世界,名詞,一般,*,*,*,*,世界,セカイ,’,1/3,0",
        "！,記号,一般,*,*,*,*,！,？,？,0/0,0",
    ] {
        assert!(matches!(word_reading_exec(&cs(line)), Err(Error::ValueError(_))));
    }
}

#[test]
fn words_and_readings_of_a_sentence() {
    let process = JTalkProcess::new(hello_world_parsed(), Vec::new());
    let (seq_text, seq_kata) = process.text_to_seq_kata().unwrap();
    assert_eq!(seq_text, strings(&["こんにちは", ",", "世界", "!"]));
    assert_eq!(seq_kata, strings(&["コンニチワ", ",", "セカイ", "!"]));
}

#[test]
fn infix_and_voicing() {
    assert!(is_infix_exec(&cs(""), &cs("AIUEO")));
    assert!(is_infix_exec(&cs("IU"), &cs("AIUEO")));
    assert!(is_infix_exec(&cs("AIUEO"), &cs("AIUEO")));
    assert!(!is_infix_exec(&cs("AU"), &cs("AIUEO")));
    assert!(!is_infix_exec(&cs("AIUEOA"), &cs("AIUEO")));
    assert_eq!(voiced_exec(cs("A")), cs("a"));
    assert_eq!(voiced_exec(cs("UE")), cs("ue"));
    assert_eq!(voiced_exec(cs("N")), cs("N"));
    assert_eq!(voiced_exec(cs("k")), cs("k"));
}

#[test]
fn prosody_of_a_sentence() {
    let process = JTalkProcess::new(Vec::new(), hello_world_labels());
    let tokens = process.g2p_prosody().unwrap();
    assert_eq!(
        tokens,
        list(&[
            "^", "k", "o", "[", "N", "n", "i", "ch", "i", "w", "a", "_", "s", "e", "]", "k", "a",
            "i", "$"
        ])
    );
}

#[test]
fn prosody_marks_the_end_of_an_accent_phrase_and_a_question() {
    let labels = vec![
        label("xx", "sil", "a", "xx+xx+xx", "xx", "xx"),
        label("sil", "a", "k", "0+1+1", "xx", "1"),
        label("a", "k", "A", "0+1+2", "xx", "2"),
        label("k", "A", "sil", "0+1+2", "xx", "2"),
        label("A", "sil", "xx", "xx+xx+xx", "1", "xx"),
    ];
    let process = JTalkProcess::new(Vec::new(), labels);
    assert_eq!(process.g2p_prosody().unwrap(), list(&["^", "a", "#", "k", "a", "?"]));
}

#[test]
fn prosody_refuses_misplaced_silence_and_broken_labels() {
    let middle = vec![
        label("xx", "sil", "a", "xx+xx+xx", "xx", "xx"),
        label("sil", "sil", "a", "xx+xx+xx", "xx", "xx"),
        label("a", "sil", "xx", "xx+xx+xx", "0", "xx"),
    ];
    assert!(matches!(
        JTalkProcess::new(Vec::new(), middle).g2p_prosody(),
        Err(Error::ValueError(_))
    ));
    let no_end = vec![label("xx", "sil", "a", "xx+xx+xx", "xx", "xx"), label("sil", "a", "xx", "0+1+1", "xx", "1")];
    assert!(matches!(
        JTalkProcess::new(Vec::new(), no_end).g2p_prosody(),
        Err(Error::ValueError(_))
    ));
    let no_phoneme = vec!["nothing".to_string()];
    assert!(matches!(
        JTalkProcess::new(Vec::new(), no_phoneme).g2p_prosody(),
        Err(Error::ValueError(_))
    ));
    assert_eq!(JTalkProcess::new(Vec::new(), Vec::new()).g2p_prosody().unwrap(), list(&[]));
}

#[test]
fn tones_of_the_closed_phrases() {
    let tokens = list(&["^", "k", "o", "[", "N", "_", "s", "e", "]", "k", "cl", "$"]);
    let (phones, tones) = JTalkProcess::phone_tones(&tokens).unwrap();
    assert_eq!(phones, list(&["k", "o", "N", "s", "e", "k", "q"]));
    assert_eq!(tones, vec![0, 0, 1, 1, 1, 0, 0]);
}

#[test]
fn tones_of_an_open_phrase_are_left_out() {
    let (phones, tones) = JTalkProcess::phone_tones(&list(&["^", "a", "#", "i", "["])).unwrap();
    assert_eq!(phones, list(&["a"]));
    assert_eq!(tones, vec![0]);
    let (phones, tones) = JTalkProcess::phone_tones(&list(&[])).unwrap();
    assert!(phones.is_empty() && tones.is_empty());
}

#[test]
fn tone_walk_refuses_misplaced_ends_and_bad_phrases() {
    for tokens in [
        list(&["a", "^", "$"]),
        list(&["^", "a", "$", "i", "$"]),
        list(&["^", "a", "?", "i"]),
        list(&["^", "$"]),
        list(&["^", "a", "#", "#"]),
        list(&["^", "a", "[", "i", "[", "u", "$"]),
        list(&["^", "[", "a", "$"]),
    ] {
        assert!(matches!(JTalkProcess::phone_tones(&tokens), Err(Error::ValueError(_))));
    }
}

#[test]
fn the_normalized_greeting_is_aligned() {
    assert_eq!(normalize_text("こんにちは、世界！"), "こんにちは,世界!");
    let process = JTalkProcess::new(hello_world_parsed(), hello_world_labels());
    let (phones, tones, word2ph) = process.g2p().unwrap();
    assert_eq!(
        phones,
        strings(&[
            "_", "k", "o", "N", "n", "i", "ch", "i", "w", "a", ",", "s", "e", "k", "a", "i", "!",
            "_"
        ])
    );
    assert_eq!(tones, vec![0, 0, 0, 1, 1, 1, 1, 1, 1, 1, 0, 1, 1, 0, 0, 0, 0, 0]);
    assert_eq!(word2ph, vec![1, 3, 2, 2, 2, 1, 1, 3, 2, 1, 1]);
}

#[test]
fn a_sentence_whose_readings_and_labels_agree_is_aligned() {
    let process = JTalkProcess::new(hello_world_parsed(), hello_world_labels());
    let (toned, tones_of_labels) = process.g2phone_tone_wo_punct().unwrap();
    let (phones, tones, _) = process.g2p().unwrap();
    let marks = ["!", "?", "…", ",", ".", "'", "-"];
    let inner = &phones[1..phones.len() - 1];
    let spoken: Vec<Vec<char>> =
        inner.iter().filter(|p| !marks.contains(&p.as_str())).map(|p| p.chars().collect()).collect();
    assert_eq!(spoken, toned);
    let mut next = 0;
    for (phone, tone) in inner.iter().zip(tones[1..].iter()) {
        if marks.contains(&phone.as_str()) {
            assert_eq!(*tone, 0);
        } else {
            assert_eq!(*tone, tones_of_labels[next]);
            next += 1;
        }
    }
    assert_eq!(next, tones_of_labels.len());
    assert_eq!((tones[10], tones[16]), (0, 0));
    assert_eq!((phones[10].as_str(), phones[16].as_str()), (",", "!"));
}

#[test]
fn an_utterance_has_the_shape_of_its_words() {
    let process = JTalkProcess::new(hello_world_parsed(), hello_world_labels());
    let (phones, tones, word2ph) = process.g2p().unwrap();
    let (seq_text, _) = process.text_to_seq_kata().unwrap();
    let text = seq_text.join("");
    assert_eq!(word2ph.len(), text.chars().count() + 2);
    assert_eq!(phones.len(), tones.len());
    assert_eq!(word2ph.iter().sum::<usize>(), phones.len() + 1);
    assert_eq!((phones[0].as_str(), tones[0]), ("_", 0));
    assert_eq!((phones[phones.len() - 1].as_str(), tones[tones.len() - 1]), ("_", 0));
    assert_eq!((word2ph[0], word2ph[word2ph.len() - 1]), (1, 1));
}

#[test]
fn an_utterance_of_nothing_is_two_pads() {
    let process = JTalkProcess::new(Vec::new(), Vec::new());
    let (phones, tones, word2ph) = process.g2p().unwrap();
    assert_eq!(phones, strings(&["_", "_"]));
    assert_eq!(tones, vec![0, 0]);
    assert_eq!(word2ph, vec![1, 1]);
    assert_eq!(word2ph.iter().sum::<usize>(), phones.len());
}

#[test]
fn alignment_fails_when_reading_and_labels_differ() {
    let mut parsed = hello_world_parsed();
    parsed[2] = "世界,名詞,一般,*,*,*,*,世界,セカイ,サカイ,1/3,0".to_string();
    let process = JTalkProcess::new(parsed, hello_world_labels());
    match process.g2p() {
        Err(Error::MismatchedPhoneme { phone, expected, aligned }) => {
            assert_eq!(phone, "a");
            assert_eq!(expected, "e");
            assert_eq!(aligned.len(), 11);
        }
        _ => panic!("no mismatch"),
    }
}

#[test]
fn alignment_fails_on_a_word_that_cannot_be_read() {
    let mut parsed = hello_world_parsed();
    parsed.push("♪,記号,一般,*,*,*,*,♪,、,、,0/0,0".to_string());
    let process = JTalkProcess::new(parsed, hello_world_labels());
    assert!(matches!(process.g2p(), Err(Error::ValueError(_))));
}

#[test]
fn a_long_mark_crosses_the_words_of_a_sentence() {
    let parsed = strings(&[
        "コ,名詞,一般,*,*,*,*,コ,コ,コ,0/1,0",
        "ー,名詞,一般,*,*,*,*,ー,ー,ー,0/1,0",
    ]);
    let labels = vec![
        label("xx", "sil", "k", "xx+xx+xx", "xx", "xx"),
        label("sil", "k", "o", "0+1+2", "xx", "2"),
        label("k", "o", "o", "0+1+2", "xx", "2"),
        label("o", "o", "sil", "1+2+1", "xx", "2"),
        label("o", "sil", "xx", "xx+xx+xx", "0", "xx"),
    ];
    let process = JTalkProcess::new(parsed, labels);
    let (phones, tones, word2ph) = process.g2p_with(&bundled_table()).unwrap();
    assert_eq!(phones, list(&["_", "k", "o", "o", "_"]));
    assert_eq!(tones, vec![0, 1, 1, 0, 0]);
    assert_eq!(word2ph, vec![1, 3, 1, 1]);
}

#[test]
fn the_bundled_table_holds_both_lists() {
    let file = MoraFile::bundled();
    assert_eq!(file.minimum.len(), MORA_LIST_MINIMUM.len());
    assert_eq!(file.additional.len(), MORA_LIST_ADDITIONAL.len());
    assert_eq!(file.minimum[0].mora, "ヴォ");
    assert_eq!(file.minimum[0].consonant.as_deref(), Some("v"));
    assert_eq!(file.minimum[5].mora, "ン");
    assert_eq!(file.minimum[5].consonant, None);
    assert_eq!(file.minimum[5].vowel, "N");
    let table = file.to_chars();
    assert_eq!(table.len(), MORA_LIST_MINIMUM.len() + MORA_LIST_ADDITIONAL.len());
    assert_eq!(table[table.len() - 1].mora, cs("ァ"));
    assert_eq!(VOWELS.len(), 6);
}

#[test]
fn vowels_are_the_phonemes_that_a_long_mark_repeats() {
    for v in VOWELS {
        assert!(is_vowel_exec(&cs(v)));
    }
    for p in ["k", "q", "", "aa", "A", "n", "ー"] {
        assert!(!is_vowel_exec(&cs(p)));
    }
}

#[test]
fn each_kana_stands_once_in_the_bundled_table() {
    let mut kana: Vec<&str> = MORA_LIST_MINIMUM.iter().chain(MORA_LIST_ADDITIONAL.iter()).map(|m| m.0).collect();
    let n = kana.len();
    kana.sort();
    kana.dedup();
    assert_eq!(kana.len(), n);
}
