use sbv2_core::error::Error;
use sbv2_core::ident::TTSIdent;
use sbv2_core::style::{get_style_vector, load_style, Data, StyleTable};
use sbv2_core::speech::{join_pieces, Piece};
use sbv2_core::tts::{Residency, TTSModelHolder};

/// A stand-in for a model: the number of bytes it was made from.
type Model = usize;

fn make(bytes: &Vec<u8>) -> Result<Model, String> {
    if bytes.is_empty() {
        Err("no bytes".to_string())
    } else {
        Ok(bytes.len())
    }
}

fn never(_: &Vec<u8>) -> Result<Model, String> {
    panic!("no model is to be made")
}

fn table(rows: &[&[f32]]) -> StyleTable {
    let data = Data {
        shape: [rows.len(), rows[0].len()],
        data: rows.iter().map(|r| r.iter().map(|x| x.to_bits()).collect()).collect(),
    };
    load_style(&data).unwrap()
}

fn style() -> StyleTable {
    table(&[&[0.5, -1.0, 2.0], &[1.5, 0.0, 2.0]])
}

fn floats(bits: &Vec<u32>) -> Vec<f32> {
    bits.iter().map(|b| f32::from_bits(*b)).collect()
}

fn blend(mean: &Vec<u32>, row: &Vec<u32>, weight: f32) -> Vec<u32> {
    mean.iter()
        .zip(row.iter())
        .map(|(m, s)| {
            let mean = f32::from_bits(*m);
            (mean + (f32::from_bits(*s) - mean) * weight).to_bits()
        })
        .collect()
}

fn no_blend(_: &Vec<u32>, _: &Vec<u32>, _: f32) -> Vec<u32> {
    panic!("nothing is to be blended")
}

#[test]
fn a_new_holder_has_no_voices() {
    let holder: TTSModelHolder<Model> = TTSModelHolder::new(Some(2));
    assert!(holder.models().is_empty());
    assert!(!holder.contains("a"));
    assert!(!holder.is_resident("a"));
    assert!(holder.wants_model("a"));
}

#[test]
fn without_a_limit_every_voice_is_resident() {
    let mut holder: TTSModelHolder<Model> = TTSModelHolder::new(None);
    for name in ["a", "b", "c"] {
        holder.load(name, style(), vec![1, 2, 3], make).unwrap();
    }
    assert_eq!(holder.models(), vec!["a", "b", "c"]);
    for name in ["a", "b", "c"] {
        assert!(holder.is_resident(name));
        assert!(matches!(holder.residency(name), Ok(Residency::Resident)));
        assert!(matches!(holder.find_and_load_model(name, never), Ok(true)));
    }
}

#[test]
fn a_limit_of_one_keeps_one_voice_resident() {
    let mut holder: TTSModelHolder<Model> = TTSModelHolder::new(Some(1));
    holder.load("A", style(), vec![1], make).unwrap();
    holder.load("B", style(), vec![1, 2], never).unwrap();
    assert!(holder.is_resident("A"));
    assert!(!holder.is_resident("B"));
    assert!(holder.contains("B"));

    assert!(matches!(holder.find_and_load_model("B", make), Ok(true)));
    assert!(!holder.is_resident("A"));
    assert!(holder.is_resident("B"));
    assert!(holder.contains("A"));

    assert!(matches!(holder.find_and_load_model("A", make), Ok(true)));
    assert!(holder.is_resident("A"));
    assert!(!holder.is_resident("B"));
    assert!(holder.contains("B"));
    assert_eq!(holder.models(), vec!["A", "B"]);
    match holder.residency("B") {
        Ok(Residency::NeedsModel(bytes)) => assert_eq!(bytes, vec![1, 2]),
        _ => panic!("B holds a model"),
    }
}

#[test]
fn the_resident_voice_that_was_loaded_first_gives_way() {
    let mut holder: TTSModelHolder<Model> = TTSModelHolder::new(Some(2));
    for name in ["a", "b", "c", "d"] {
        holder.load(name, style(), vec![7], make).unwrap();
    }
    assert_eq!(
        ["a", "b", "c", "d"].map(|n| holder.is_resident(n)),
        [true, true, false, false]
    );
    holder.find_and_load_model("d", make).unwrap();
    assert_eq!(
        ["a", "b", "c", "d"].map(|n| holder.is_resident(n)),
        [false, true, false, true]
    );
    holder.find_and_load_model("a", make).unwrap();
    assert_eq!(
        ["a", "b", "c", "d"].map(|n| holder.is_resident(n)),
        [true, false, false, true]
    );
    holder.find_and_load_model("c", make).unwrap();
    assert_eq!(
        ["a", "b", "c", "d"].map(|n| holder.is_resident(n)),
        [false, false, true, true]
    );
    assert_eq!(holder.models(), vec!["a", "b", "c", "d"]);
}

#[test]
fn a_voice_becomes_resident_without_giving_way_where_there_is_room() {
    let mut holder: TTSModelHolder<Model> = TTSModelHolder::new(Some(2));
    holder.load("a", style(), vec![7], make).unwrap();
    holder.load("b", style(), vec![7], make).unwrap();
    holder.load("c", style(), vec![7], never).unwrap();
    assert!(holder.unload("a"));
    holder.find_and_load_model("c", make).unwrap();
    assert!(holder.is_resident("b") && holder.is_resident("c"));
}

#[test]
fn loading_twice_keeps_the_first_voice() {
    let mut holder: TTSModelHolder<Model> = TTSModelHolder::new(Some(1));
    holder.load("A", style(), vec![1, 2, 3], make).unwrap();
    let other = table(&[&[9.0, 9.0, 9.0]]);
    holder.load("A", other, vec![4, 5], never).unwrap();
    assert_eq!(holder.models(), vec!["A"]);
    let (mean, _) = holder.style_rows("A", 1).unwrap();
    assert_eq!(floats(&mean), vec![0.5, -1.0, 2.0]);
    let heard = holder.run_resident("A", |model: &Model| Ok::<Model, String>(*model)).unwrap();
    assert_eq!(heard, 3);
}

#[test]
fn loading_twice_without_a_limit_keeps_the_first_voice() {
    let mut holder: TTSModelHolder<Model> = TTSModelHolder::new(None);
    holder.load("A", style(), vec![1, 2, 3], make).unwrap();
    holder.load("A", style(), vec![], never).unwrap();
    assert_eq!(holder.models(), vec!["A"]);
    assert_eq!(holder.run_resident("A", |m: &Model| Ok::<Model, String>(*m)).unwrap(), 3);
}

#[test]
fn a_model_that_cannot_be_made_leaves_the_holder_as_it_was() {
    let mut holder: TTSModelHolder<Model> = TTSModelHolder::new(Some(1));
    match holder.load("A", style(), vec![], make) {
        Err(Error::ModelLoadError(message)) => assert_eq!(message, "no bytes"),
        _ => panic!("loaded"),
    }
    assert!(holder.models().is_empty());
    holder.load("A", style(), vec![1], make).unwrap();
    holder.load("B", style(), vec![2], never).unwrap();
    let failing = |_: &Vec<u8>| Err::<Model, String>("broken".to_string());
    match holder.find_and_load_model("B", failing) {
        Err(Error::ModelLoadError(message)) => assert_eq!(message, "broken"),
        _ => panic!("made"),
    }
    assert!(holder.is_resident("A"));
    assert!(!holder.is_resident("B"));
    assert_eq!(holder.models(), vec!["A", "B"]);
}

#[test]
fn names_are_told_apart_by_case() {
    let mut holder: TTSModelHolder<Model> = TTSModelHolder::new(None);
    holder.load("voice", style(), vec![1], make).unwrap();
    assert!(!holder.contains("Voice"));
    holder.load("Voice", style(), vec![1, 2], make).unwrap();
    assert_eq!(holder.models(), vec!["voice", "Voice"]);
}

#[test]
fn unload_says_whether_there_was_a_voice() {
    let mut holder: TTSModelHolder<Model> = TTSModelHolder::new(Some(1));
    holder.load("a", style(), vec![1], make).unwrap();
    holder.load("b", style(), vec![1], never).unwrap();
    assert!(!holder.unload("c"));
    assert!(holder.unload("a"));
    assert!(!holder.unload("a"));
    assert_eq!(holder.models(), vec!["b"]);
    assert!(holder.wants_model("a"));
    holder.load("a", style(), vec![1], make).unwrap();
    assert_eq!(holder.models(), vec!["b", "a"]);
    assert!(holder.is_resident("a"));
}

#[test]
fn a_voice_that_is_not_loaded_is_not_found() {
    let mut holder: TTSModelHolder<Model> = TTSModelHolder::new(Some(1));
    holder.load("a", style(), vec![1], make).unwrap();
    match holder.find_and_load_model("b", never) {
        Err(Error::ModelNotFoundError(name)) => assert_eq!(name, "b"),
        _ => panic!("found"),
    }
    assert!(matches!(holder.residency("b"), Err(Error::ModelNotFoundError(_))));
    assert!(matches!(holder.style_rows("b", 0), Err(Error::ModelNotFoundError(_))));
    assert!(matches!(
        holder.run_resident("b", |m: &Model| Ok::<Model, String>(*m)),
        Err(Error::ModelNotFoundError(_))
    ));
    assert!(matches!(
        holder.synthesize("b", never, |m: &Model| Ok::<Model, String>(*m)),
        Err(Error::ModelNotFoundError(_))
    ));
    assert!(matches!(holder.install("b", Ok(1)), Err(Error::ModelNotFoundError(_))));
}

#[test]
fn under_a_limit_of_zero_no_voice_is_resident() {
    let mut holder: TTSModelHolder<Model> = TTSModelHolder::new(Some(0));
    assert!(!holder.wants_model("a"));
    holder.load("a", style(), vec![1], never).unwrap();
    assert!(holder.contains("a") && !holder.is_resident("a"));
    assert!(matches!(holder.find_and_load_model("a", make), Err(Error::ModelLoadError(_))));
    assert!(!holder.is_resident("a"));
    assert_eq!(holder.models(), vec!["a"]);
}

#[test]
fn a_model_that_the_budget_does_not_allow_is_dropped() {
    let mut holder: TTSModelHolder<Model> = TTSModelHolder::new(Some(1));
    holder.load_made("a", style(), vec![1], Some(Ok(10))).unwrap();
    holder.load_made("b", style(), vec![1], Some(Ok(20))).unwrap();
    holder.load_made("c", style(), vec![1], None).unwrap();
    assert_eq!(["a", "b", "c"].map(|n| holder.is_resident(n)), [true, false, false]);
    assert!(matches!(
        holder.load_made("d", style(), vec![1], Some(Err("bad".to_string()))),
        Err(Error::ModelLoadError(_))
    ));
    assert!(!holder.contains("d"));
}

#[test]
fn install_gives_a_voice_its_model() {
    let mut holder: TTSModelHolder<Model> = TTSModelHolder::new(Some(1));
    holder.load("a", style(), vec![1], make).unwrap();
    holder.load("b", style(), vec![1], never).unwrap();
    holder.install("a", Ok(99)).unwrap();
    assert_eq!(holder.run_resident("a", |m: &Model| Ok::<Model, String>(*m)).unwrap(), 1);
    holder.install("b", Ok(42)).unwrap();
    assert_eq!(holder.run_resident("b", |m: &Model| Ok::<Model, String>(*m)).unwrap(), 42);
    assert!(!holder.is_resident("a"));
}

#[test]
fn synthesize_makes_the_voice_resident_and_runs_it() {
    let mut holder: TTSModelHolder<Model> = TTSModelHolder::new(Some(1));
    holder.load("a", style(), vec![1], make).unwrap();
    holder.load("b", style(), vec![1, 2, 3, 4], never).unwrap();
    let audio = holder.synthesize("b", make, |m: &Model| Ok::<Vec<u8>, String>(vec![*m as u8; 2]));
    assert_eq!(audio.unwrap(), vec![4, 4]);
    assert!(holder.is_resident("b") && !holder.is_resident("a"));
    let failed = holder.synthesize("b", never, |_: &Model| Err::<Vec<u8>, String>("engine".to_string()));
    match failed {
        Err(Error::InferenceError(message)) => assert_eq!(message, "engine"),
        _ => panic!("spoke"),
    }
    assert!(holder.is_resident("b"));
}

#[test]
fn the_style_rows_of_a_voice() {
    let mut holder: TTSModelHolder<Model> = TTSModelHolder::new(None);
    holder.load("a", style(), vec![1], make).unwrap();
    let (mean, row) = holder.style_rows("a", 1).unwrap();
    assert_eq!(floats(&mean), vec![0.5, -1.0, 2.0]);
    assert_eq!(floats(&row), vec![1.5, 0.0, 2.0]);
    let (mean, row) = holder.style_rows("a", 0).unwrap();
    assert_eq!(mean, row);
    assert!(matches!(holder.style_rows("a", 2), Err(Error::ValueError(_))));
    assert!(matches!(holder.style_rows("a", -1), Err(Error::ValueError(_))));
}

#[test]
fn the_neutral_style_is_the_mean_row_whatever_the_weight() {
    let t = style();
    for weight in [0.0f32, 1.0, -3.5, 1e30, f32::INFINITY, f32::NEG_INFINITY, f32::NAN] {
        let vector = get_style_vector(&t, 0, weight, no_blend).unwrap();
        assert_eq!(floats(&vector), vec![0.5, -1.0, 2.0]);
        assert_eq!(vector, t.style_rows(0).unwrap().0);
    }
    let mut holder: TTSModelHolder<Model> = TTSModelHolder::new(None);
    holder.load("a", style(), vec![1], make).unwrap();
    let vector = holder.get_style_vector("a", 0, f32::NAN, no_blend).unwrap();
    assert_eq!(floats(&vector), vec![0.5, -1.0, 2.0]);
}

#[test]
fn a_style_vector_blends_the_style_with_the_mean() {
    let t = style();
    assert_eq!(floats(&get_style_vector(&t, 1, 0.5, blend).unwrap()), vec![1.0, -0.5, 2.0]);
    assert_eq!(floats(&get_style_vector(&t, 1, 1.0, blend).unwrap()), vec![1.5, 0.0, 2.0]);
    assert_eq!(floats(&get_style_vector(&t, 1, 0.0, blend).unwrap()), vec![0.5, -1.0, 2.0]);
    assert_eq!(floats(&get_style_vector(&t, 1, 2.0, blend).unwrap()), vec![2.5, 1.0, 2.0]);
}

#[test]
fn there_is_no_style_vector_without_the_voice_or_the_style() {
    let t = style();
    for id in [2, -1, i32::MAX, i32::MIN] {
        match get_style_vector(&t, id, 1.0, no_blend) {
            Err(Error::ValueError(message)) => assert_eq!(message, "Style id out of range"),
            _ => panic!("a vector"),
        }
    }
    let mut holder: TTSModelHolder<Model> = TTSModelHolder::new(Some(1));
    holder.load("a", style(), vec![1], make).unwrap();
    holder.load("b", style(), vec![1], never).unwrap();
    match holder.get_style_vector("c", 0, 1.0, no_blend) {
        Err(Error::ModelNotFoundError(name)) => assert_eq!(name, "c"),
        _ => panic!("a vector"),
    }
    assert!(matches!(holder.get_style_vector("a", 2, 1.0, no_blend), Err(Error::ValueError(_))));
    assert_eq!(floats(&holder.get_style_vector("b", 1, 0.5, blend).unwrap()), vec![1.0, -0.5, 2.0]);
}

#[test]
fn a_style_table_has_the_shape_that_it_says() {
    let t = style();
    assert_eq!((t.style_count(), t.width()), (2, 3));
    let reshaped = load_style(&Data { shape: [3, 2], data: vec![vec![1, 2, 3], vec![4, 5, 6]] }).unwrap();
    assert_eq!(reshaped.style_rows(2).unwrap(), (vec![1, 2], vec![5, 6]));
    let empty = load_style(&Data { shape: [0, 5], data: vec![] }).unwrap();
    assert!(matches!(empty.style_rows(0), Err(Error::ValueError(_))));
}

#[test]
fn a_style_table_that_does_not_fit_its_shape_is_refused() {
    for (shape, data) in [
        ([2usize, 3usize], vec![vec![1u32, 2, 3]]),
        ([1, 2], vec![vec![1, 2, 3]]),
        ([usize::MAX, 2], vec![vec![1, 2]]),
        ([1, 1], vec![]),
    ] {
        assert!(matches!(load_style(&Data { shape, data }), Err(Error::ModelLoadError(_))));
    }
}

fn voice_archive(members: &[(&str, &[u8])]) -> Vec<u8> {
    let mut builder = tar::Builder::new(Vec::new());
    for (path, contents) in members {
        let mut header = tar::Header::new_gnu();
        header.set_size(contents.len() as u64);
        header.set_mode(0o644);
        header.set_cksum();
        builder.append_data(&mut header, path, *contents).unwrap();
    }
    zstd::encode_all(std::io::Cursor::new(builder.into_inner().unwrap()), 3).unwrap()
}

/// Reads a style table of one row from bytes, each byte one number.
fn read_style(bytes: &Vec<u8>) -> Result<Data, String> {
    if bytes.is_empty() {
        return Err("no style".to_string());
    }
    Ok(Data { shape: [1, bytes.len()], data: vec![bytes.iter().map(|b| *b as u32).collect()] })
}

fn misshapen(bytes: &Vec<u8>) -> Result<Data, String> {
    Ok(Data { shape: [2, bytes.len()], data: vec![bytes.iter().map(|b| *b as u32).collect()] })
}

#[test]
fn a_voice_is_loaded_from_its_archive() {
    let mut holder: TTSModelHolder<Model> = TTSModelHolder::new(Some(1));
    let bytes = voice_archive(&[("model.onnx", b"12345"), ("style_vectors.json", &[7, 8])]);
    holder.load_sbv2file("a", &bytes, read_style, make).unwrap();
    assert_eq!(holder.models(), vec!["a"]);
    assert_eq!(holder.style_rows("a", 0).unwrap().0, vec![7, 8]);
    assert_eq!(holder.run_resident("a", |m: &Model| Ok::<Model, String>(*m)).unwrap(), 5);
    let other = voice_archive(&[("model.onnx", b"1"), ("style_vectors.json", &[1])]);
    holder.load_sbv2file("a", &other, |_: &Vec<u8>| panic!("read again"), never).unwrap();
    assert_eq!(holder.style_rows("a", 0).unwrap().0, vec![7, 8]);
    holder.load_sbv2file("b", &other, read_style, never).unwrap();
    assert!(!holder.is_resident("b"));
    match holder.residency("b") {
        Ok(Residency::NeedsModel(kept)) => assert_eq!(kept, b"1"),
        _ => panic!("b holds a model"),
    }
}

#[test]
fn an_archive_that_cannot_be_loaded_leaves_the_holder_as_it_was() {
    let mut holder: TTSModelHolder<Model> = TTSModelHolder::new(None);
    let no_style = voice_archive(&[("model.onnx", b"1")]);
    match holder.load_sbv2file("a", &no_style, read_style, make) {
        Err(Error::ModelNotFoundError(name)) => assert_eq!(name, "style_vectors"),
        _ => panic!("loaded"),
    }
    assert!(matches!(
        holder.load_sbv2file("a", &b"junk".to_vec(), read_style, make),
        Err(Error::IoError(_))
    ));
    let empty_style = voice_archive(&[("model.onnx", b"1"), ("style_vectors.json", b"")]);
    match holder.load_sbv2file("a", &empty_style, read_style, never) {
        Err(Error::ModelLoadError(message)) => assert_eq!(message, "no style"),
        _ => panic!("loaded"),
    }
    let good = voice_archive(&[("model.onnx", b"1"), ("style_vectors.json", &[1, 2])]);
    assert!(matches!(
        holder.load_sbv2file("a", &good, misshapen, never),
        Err(Error::ModelLoadError(_))
    ));
    let no_model = voice_archive(&[("model.onnx", b""), ("style_vectors.json", &[1, 2])]);
    assert!(matches!(
        holder.load_sbv2file("a", &no_model, read_style, make),
        Err(Error::ModelLoadError(_))
    ));
    assert!(holder.models().is_empty());
}

#[test]
fn without_a_limit_a_voice_is_not_loaded_without_its_model() {
    let mut holder: TTSModelHolder<Model> = TTSModelHolder::new(None);
    assert!(matches!(
        holder.load_made("a", style(), vec![1], None),
        Err(Error::ModelLoadError(_))
    ));
    assert!(holder.models().is_empty());
    holder.load_made("a", style(), vec![1], Some(Ok(3))).unwrap();
    holder.load_made("a", style(), vec![1], None).unwrap();
    assert!(holder.is_resident("a"));
    assert!(matches!(holder.residency("a"), Ok(Residency::Resident)));
}

#[test]
fn errors_say_what_went_wrong() {
    assert_eq!(Error::ValueError("bad".to_string()).message(), "Value error: bad");
    assert_eq!(
        Error::ModelNotFoundError("vits2".to_string()).message(),
        "model not found error"
    );
    assert_eq!(Error::ModelLoadError("x".to_string()).message(), "model load error: x");
    assert_eq!(Error::InferenceError("x".to_string()).message(), "ONNX error: x");
    assert_eq!(Error::TokenizerError("x".to_string()).message(), "Tokenizer error: x");
    let mismatch = Error::MismatchedPhoneme {
        phone: "a".to_string(),
        expected: "e".to_string(),
        aligned: vec![0],
    };
    assert_eq!(mismatch.message(), "Value error: Mismatched phoneme: a");
    let io = Error::IoError(std::io::Error::new(std::io::ErrorKind::Other, "disk"));
    assert_eq!(io.message(), "IO error: disk");
}

#[test]
fn names_of_voices() {
    let a = TTSIdent::new("tsukuyomi");
    assert_eq!(a.as_str(), "tsukuyomi");
    assert_eq!(a.to_string(), "tsukuyomi");
    assert!(a.is(&TTSIdent::new("tsukuyomi")));
    assert!(!a.is(&TTSIdent::new("Tsukuyomi")));
    assert!(a == a.clone());
    assert!(a != TTSIdent::new(""));
}

fn say(model: &Model, segment: &String, vector: &Vec<u32>) -> Result<String, Error> {
    if segment == "!" {
        return Err(Error::InferenceError("cannot say that".to_string()));
    }
    Ok(format!("{model}:{segment}:{}:{}", vector.len(), f32::from_bits(vector[0])))
}

fn heard(pieces: Vec<Piece<String>>) -> Vec<String> {
    pieces
        .into_iter()
        .map(|p| match p {
            Piece::Audio(a) => a,
            Piece::Silence => "...".to_string(),
        })
        .collect()
}

#[test]
fn a_text_is_spoken_segment_by_segment_with_silence_between() {
    let mut holder: TTSModelHolder<Model> = TTSModelHolder::new(Some(1));
    holder.load("a", style(), vec![1], make).unwrap();
    holder.load("b", style(), vec![1, 2], never).unwrap();
    let pieces = holder.easy_synthesize("b", "こん\n\nにち\nは", 1, 1.0, true, make, blend, say).unwrap();
    assert_eq!(heard(pieces), vec!["2:こん:3:1.5", "...", "2:にち:3:1.5", "...", "2:は:3:1.5"]);
    assert!(holder.is_resident("b") && !holder.is_resident("a"));
    let pieces = holder.easy_synthesize("b", "こん\nにち\n", 1, 0.5, true, never, blend, say).unwrap();
    assert_eq!(heard(pieces), vec!["2:こん:3:1", "...", "2:にち:3:1"]);
    let pieces = holder.easy_synthesize("b", "こん\nにち\n", 0, 3.0, true, never, no_blend, say).unwrap();
    assert_eq!(heard(pieces), vec!["2:こん:3:0.5", "...", "2:にち:3:0.5"]);
    let pieces = holder.easy_synthesize("b", "こん\n", 0, 1.0, true, never, no_blend, say).unwrap();
    assert_eq!(heard(pieces), vec!["2:こん:3:0.5"]);
    let pieces = holder.easy_synthesize("b", "こん\nにち", 0, 1.0, false, never, no_blend, say).unwrap();
    assert_eq!(heard(pieces), vec!["2:こん\nにち:3:0.5"]);
}

#[test]
fn a_text_without_any_segment_is_refused() {
    let mut holder: TTSModelHolder<Model> = TTSModelHolder::new(None);
    holder.load("a", style(), vec![1], make).unwrap();
    let silent = |_: &Model, _: &String, _: &Vec<u32>| -> Result<String, Error> { panic!("spoken") };
    for text in ["", "\n", "\n\n\n"] {
        match holder.easy_synthesize("a", text, 0, 1.0, true, never, no_blend, silent) {
            Err(Error::ValueError(message)) => assert_eq!(message, "No text to speak"),
            _ => panic!("spoken"),
        }
        match holder.speak_segments("a", text, true, &vec![0], silent) {
            Err(Error::ValueError(message)) => assert_eq!(message, "No text to speak"),
            _ => panic!("spoken"),
        }
    }
    let pieces = holder.easy_synthesize("a", "", 0, 1.0, false, never, no_blend, say).unwrap();
    assert_eq!(heard(pieces), vec!["1::3:0.5"]);
    assert!(matches!(
        holder.easy_synthesize("a", "", 7, 1.0, true, never, no_blend, silent),
        Err(Error::ValueError(message)) if message == "Style id out of range"
    ));
    assert!(matches!(
        holder.easy_synthesize("b", "", 0, 1.0, true, never, no_blend, silent),
        Err(Error::ModelNotFoundError(_))
    ));
}

#[test]
fn nothing_is_spoken_where_the_voice_or_the_style_is_missing() {
    let mut holder: TTSModelHolder<Model> = TTSModelHolder::new(Some(1));
    holder.load("a", style(), vec![1], make).unwrap();
    let silent = |_: &Model, _: &String, _: &Vec<u32>| -> Result<String, Error> { panic!("spoken") };
    assert!(matches!(
        holder.easy_synthesize("b", "x", 0, 1.0, true, never, no_blend, silent),
        Err(Error::ModelNotFoundError(_))
    ));
    assert!(matches!(
        holder.easy_synthesize("a", "x", 2, 1.0, true, never, no_blend, silent),
        Err(Error::ValueError(_))
    ));
}

#[test]
fn the_first_segment_that_fails_ends_the_speech() {
    let mut holder: TTSModelHolder<Model> = TTSModelHolder::new(None);
    holder.load("a", style(), vec![1], make).unwrap();
    match holder.easy_synthesize("a", "x\n!\ny", 0, 1.0, true, never, no_blend, say) {
        Err(Error::InferenceError(message)) => assert_eq!(message, "cannot say that"),
        _ => panic!("spoken"),
    }
}

#[test]
fn only_a_resident_voice_speaks() {
    let mut holder: TTSModelHolder<Model> = TTSModelHolder::new(Some(1));
    holder.load("a", style(), vec![1], make).unwrap();
    holder.load("b", style(), vec![1, 2], never).unwrap();
    let vector = holder.get_style_vector("a", 1, 1.0, blend).unwrap();
    assert_eq!(
        heard(holder.speak_segments("a", "x\ny", true, &vector, say).unwrap()),
        vec!["1:x:3:1.5", "...", "1:y:3:1.5"]
    );
    assert!(matches!(
        holder.speak_segments("b", "x", true, &vector, say),
        Err(Error::ModelNotFoundError(_))
    ));
    assert!(matches!(
        holder.speak_segments("c", "x", true, &vector, say),
        Err(Error::ModelNotFoundError(_))
    ));
}

#[test]
fn pieces_are_joined_with_half_a_second_of_silence() {
    let pieces = vec![
        Piece::Audio(vec![0.5f32, -0.5]),
        Piece::Silence,
        Piece::Audio(vec![]),
        Piece::Audio(vec![1.0]),
    ];
    let samples = join_pieces(&pieces, 0.0);
    assert_eq!(samples.len(), 2 + 22050 + 1);
    assert_eq!(&samples[..3], &[0.5, -0.5, 0.0]);
    assert!(samples[2..22052].iter().all(|s| *s == 0.0));
    assert_eq!(samples[22052], 1.0);
    assert!(join_pieces(&Vec::<Piece<Vec<u8>>>::new(), 0).is_empty());
}
