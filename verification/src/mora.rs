//! The mora table: which phonemes each kana, or pair of kana, is read as.

use vstd::prelude::*;
use crate::chars::str_to_chars;

verus! {

/// One mora: its kana, its consonant if it has one, and its vowel.
#[derive(Debug, Clone)]
pub struct Mora {
    pub mora: String,
    pub consonant: Option<String>,
    pub vowel: String,
}

/// The two lists of a mora table.
#[derive(Debug, Clone)]
pub struct MoraFile {
    pub minimum: Vec<Mora>,
    pub additional: Vec<Mora>,
}

/// A mora as plain text.
pub ghost struct MoraText {
    pub mora: Seq<char>,
    pub consonant: Option<Seq<char>>,
    pub vowel: Seq<char>,
}

/// A mora held as characters, as the scan of a reading needs it.
pub struct MoraChars {
    pub mora: Vec<char>,
    pub consonant: Option<Vec<char>>,
    pub vowel: Vec<char>,
}

impl View for Mora {
    type V = MoraText;

    open spec fn view(&self) -> MoraText {
        MoraText {
            mora: self.mora@,
            consonant: match self.consonant {
                Some(c) => Some(c@),
                None => None,
            },
            vowel: self.vowel@,
        }
    }
}

impl View for MoraChars {
    type V = MoraText;

    open spec fn view(&self) -> MoraText {
        MoraText {
            mora: self.mora@,
            consonant: match self.consonant {
                Some(c) => Some(c@),
                None => None,
            },
            vowel: self.vowel@,
        }
    }
}

/// The moras that a reading is made of: kana, consonant (empty where the
/// mora has none) and vowel.
pub const MORA_LIST_MINIMUM: [(&'static str, &'static str, &'static str); 145] = [
    ("ヴォ", "v", "o"), ("ヴェ", "v", "e"), ("ヴィ", "v", "i"), ("ヴァ", "v", "a"), ("ヴ", "v", "u"),
    ("ン", "", "N"), ("ワ", "w", "a"), ("ロ", "r", "o"), ("レ", "r", "e"), ("ル", "r", "u"),
    ("リョ", "ry", "o"), ("リュ", "ry", "u"), ("リャ", "ry", "a"), ("リェ", "ry", "e"),
    ("リ", "r", "i"), ("ラ", "r", "a"), ("ヨ", "y", "o"), ("ユ", "y", "u"), ("ヤ", "y", "a"),
    ("モ", "m", "o"), ("メ", "m", "e"), ("ム", "m", "u"), ("ミョ", "my", "o"), ("ミュ", "my", "u"),
    ("ミャ", "my", "a"), ("ミェ", "my", "e"), ("ミ", "m", "i"), ("マ", "m", "a"), ("ポ", "p", "o"),
    ("ボ", "b", "o"), ("ホ", "h", "o"), ("ペ", "p", "e"), ("ベ", "b", "e"), ("ヘ", "h", "e"),
    ("プ", "p", "u"), ("ブ", "b", "u"), ("フォ", "f", "o"), ("フェ", "f", "e"), ("フィ", "f", "i"),
    ("ファ", "f", "a"), ("フ", "f", "u"), ("ピョ", "py", "o"), ("ピュ", "py", "u"), ("ピャ", "py", "a"),
    ("ピェ", "py", "e"), ("ピ", "p", "i"), ("ビョ", "by", "o"), ("ビュ", "by", "u"),
    ("ビャ", "by", "a"), ("ビェ", "by", "e"), ("ビ", "b", "i"), ("ヒョ", "hy", "o"),
    ("ヒュ", "hy", "u"), ("ヒャ", "hy", "a"), ("ヒェ", "hy", "e"), ("ヒ", "h", "i"), ("パ", "p", "a"),
    ("バ", "b", "a"), ("ハ", "h", "a"), ("ノ", "n", "o"), ("ネ", "n", "e"), ("ヌ", "n", "u"),
    ("ニョ", "ny", "o"), ("ニュ", "ny", "u"), ("ニャ", "ny", "a"), ("ニェ", "ny", "e"),
    ("ニ", "n", "i"), ("ナ", "n", "a"), ("ドゥ", "d", "u"), ("ド", "d", "o"), ("トゥ", "t", "u"),
    ("ト", "t", "o"), ("デョ", "dy", "o"), ("デュ", "dy", "u"), ("デャ", "dy", "a"),
    ("デェ", "dy", "e"), ("ディ", "d", "i"), ("デ", "d", "e"), ("テョ", "ty", "o"), ("テュ", "ty", "u"),
    ("テャ", "ty", "a"), ("ティ", "t", "i"), ("テ", "t", "e"), ("ツォ", "ts", "o"), ("ツェ", "ts", "e"),
    ("ツィ", "ts", "i"), ("ツァ", "ts", "a"), ("ツ", "ts", "u"), ("ッ", "", "q"), ("チョ", "ch", "o"),
    ("チュ", "ch", "u"), ("チャ", "ch", "a"), ("チェ", "ch", "e"), ("チ", "ch", "i"), ("ダ", "d", "a"),
    ("タ", "t", "a"), ("ゾ", "z", "o"), ("ソ", "s", "o"), ("ゼ", "z", "e"), ("セ", "s", "e"),
    ("ズィ", "z", "i"), ("ズ", "z", "u"), ("スィ", "s", "i"), ("ス", "s", "u"), ("ジョ", "j", "o"),
    ("ジュ", "j", "u"), ("ジャ", "j", "a"), ("ジェ", "j", "e"), ("ジ", "j", "i"), ("ショ", "sh", "o"),
    ("シュ", "sh", "u"), ("シャ", "sh", "a"), ("シェ", "sh", "e"), ("シ", "sh", "i"), ("ザ", "z", "a"),
    ("サ", "s", "a"), ("ゴ", "g", "o"), ("コ", "k", "o"), ("ゲ", "g", "e"), ("ケ", "k", "e"),
    ("グヮ", "g", "a"), ("グ", "g", "u"), ("クヮ", "k", "a"), ("ク", "k", "u"), ("ギョ", "gy", "o"),
    ("ギュ", "gy", "u"), ("ギャ", "gy", "a"), ("ギェ", "gy", "e"), ("ギ", "g", "i"),
    ("キョ", "ky", "o"), ("キュ", "ky", "u"), ("キャ", "ky", "a"), ("キェ", "ky", "e"),
    ("キ", "k", "i"), ("ガ", "g", "a"), ("カ", "k", "a"), ("オ", "", "o"), ("エ", "", "e"),
    ("ウォ", "w", "o"), ("ウェ", "w", "e"), ("ウィ", "w", "i"), ("ウ", "", "u"), ("イェ", "y", "e"),
    ("イ", "", "i"), ("ア", "", "a"),
];

/// Kana that are read like a mora of the first list: kana, consonant
/// (empty where there is none) and vowel.
pub const MORA_LIST_ADDITIONAL: [(&'static str, &'static str, &'static str); 18] = [
    ("ヴョ", "by", "o"), ("ヴュ", "by", "u"), ("ヴャ", "by", "a"), ("ヲ", "", "o"), ("ヱ", "", "e"),
    ("ヰ", "", "i"), ("ヮ", "w", "a"), ("ョ", "y", "o"), ("ュ", "y", "u"), ("ヅ", "z", "u"),
    ("ヂ", "j", "i"), ("ヶ", "k", "e"), ("ャ", "y", "a"), ("ォ", "", "o"), ("ェ", "", "e"),
    ("ゥ", "", "u"), ("ィ", "", "i"), ("ァ", "", "a"),
];

/// The phonemes after which a long-vowel mark repeats the phoneme.
pub const VOWELS: [&'static str; 6] = ["a", "i", "u", "e", "o", "N"];

/// Whether `p` is one of `VOWELS`.
pub open spec fn is_vowel(p: Seq<char>) -> bool {
    p.len() == 1 && (p[0] == 'a' || p[0] == 'i' || p[0] == 'u' || p[0] == 'e' || p[0] == 'o'
        || p[0] == 'N')
}

/// Each of `VOWELS` is a vowel.
pub proof fn lemma_vowels_listed()
    ensures
        forall|i: int| 0 <= i < VOWELS@.len() ==> is_vowel(#[trigger] VOWELS@[i]@),
{
    reveal_strlit("a");
    reveal_strlit("i");
    reveal_strlit("u");
    reveal_strlit("e");
    reveal_strlit("o");
    reveal_strlit("N");
    assert(is_vowel(VOWELS@[0]@));
    assert(is_vowel(VOWELS@[1]@));
    assert(is_vowel(VOWELS@[2]@));
    assert(is_vowel(VOWELS@[3]@));
    assert(is_vowel(VOWELS@[4]@));
    assert(is_vowel(VOWELS@[5]@));
}

/// The mora that a line of one of the two lists writes.
pub open spec fn listed(line: (&'static str, &'static str, &'static str)) -> MoraText {
    MoraText {
        mora: line.0@,
        consonant: if line.1@.len() == 0 {
            None
        } else {
            Some(line.1@)
        },
        vowel: line.2@,
    }
}

/// The moras of the first list.
pub open spec fn minimum_moras() -> Seq<MoraText> {
    Seq::new(MORA_LIST_MINIMUM@.len(), |i: int| listed(MORA_LIST_MINIMUM@[i]))
}

/// The moras of the second list.
pub open spec fn additional_moras() -> Seq<MoraText> {
    Seq::new(MORA_LIST_ADDITIONAL@.len(), |i: int| listed(MORA_LIST_ADDITIONAL@[i]))
}

/// The moras of the two lists, the additional ones last.
pub open spec fn bundled_moras() -> Seq<MoraText> {
    minimum_moras() + additional_moras()
}

/// The texts of a list of moras.
pub open spec fn mora_texts(list: Seq<Mora>) -> Seq<MoraText> {
    list.map_values(|m: Mora| m@)
}

/// The texts of a list of moras held as characters.
pub open spec fn chars_texts(list: Seq<MoraChars>) -> Seq<MoraText> {
    list.map_values(|m: MoraChars| m@)
}

proof fn lemma_mora_texts_push(s: Seq<Mora>, m: Mora)
    ensures
        mora_texts(s.push(m)) == mora_texts(s).push(m@),
{
    assert(mora_texts(s.push(m)) =~= mora_texts(s).push(m@));
}

proof fn lemma_chars_texts_push(s: Seq<MoraChars>, m: MoraChars)
    ensures
        chars_texts(s.push(m)) == chars_texts(s).push(m@),
{
    assert(chars_texts(s.push(m)) =~= chars_texts(s).push(m@));
}

fn mora_of(line: (&'static str, &'static str, &'static str)) -> (m: Mora)
    ensures
        m@ == listed(line),
{
    let consonant = if line.1.is_empty() {
        None
    } else {
        Some(line.1.to_owned())
    };
    Mora { mora: line.0.to_owned(), consonant, vowel: line.2.to_owned() }
}

impl MoraFile {
    /// The table that the library carries.
    pub fn bundled() -> (file: MoraFile)
        ensures
            mora_texts(file.minimum@) == minimum_moras(),
            mora_texts(file.additional@) == additional_moras(),
    {
        let mut minimum: Vec<Mora> = Vec::new();
        let mut i: usize = 0;
        while i < MORA_LIST_MINIMUM.len()
            invariant
                i <= MORA_LIST_MINIMUM@.len(),
                mora_texts(minimum@) == Seq::new(i as nat, |k: int| listed(MORA_LIST_MINIMUM@[k])),
            decreases MORA_LIST_MINIMUM@.len() - i,
        {
            let m = mora_of(MORA_LIST_MINIMUM[i]);
            proof {
                lemma_mora_texts_push(minimum@, m);
            }
            minimum.push(m);
            i += 1;
            assert(mora_texts(minimum@) =~= Seq::new(
                i as nat,
                |k: int| listed(MORA_LIST_MINIMUM@[k]),
            ));
        }
        let mut additional: Vec<Mora> = Vec::new();
        let mut j: usize = 0;
        while j < MORA_LIST_ADDITIONAL.len()
            invariant
                j <= MORA_LIST_ADDITIONAL@.len(),
                mora_texts(additional@) == Seq::new(
                    j as nat,
                    |k: int| listed(MORA_LIST_ADDITIONAL@[k]),
                ),
            decreases MORA_LIST_ADDITIONAL@.len() - j,
        {
            let m = mora_of(MORA_LIST_ADDITIONAL[j]);
            proof {
                lemma_mora_texts_push(additional@, m);
            }
            additional.push(m);
            j += 1;
            assert(mora_texts(additional@) =~= Seq::new(
                j as nat,
                |k: int| listed(MORA_LIST_ADDITIONAL@[k]),
            ));
        }
        MoraFile { minimum, additional }
    }

    /// The moras of both lists as characters, the additional ones last.
    pub fn to_chars(&self) -> (table: Vec<MoraChars>)
        ensures
            chars_texts(table@) == mora_texts(self.minimum@) + mora_texts(self.additional@),
    {
        let mut table: Vec<MoraChars> = Vec::new();
        let mut i: usize = 0;
        while i < self.minimum.len()
            invariant
                i <= self.minimum.len(),
                chars_texts(table@) == mora_texts(self.minimum@.take(i as int)),
            decreases self.minimum.len() - i,
        {
            let m = mora_chars(&self.minimum[i]);
            proof {
                lemma_chars_texts_push(table@, m);
                lemma_mora_texts_push(self.minimum@.take(i as int), self.minimum@[i as int]);
                assert(self.minimum@.take(i + 1) == self.minimum@.take(i as int).push(
                    self.minimum@[i as int],
                ));
            }
            table.push(m);
            i += 1;
        }
        assert(self.minimum@.take(i as int) == self.minimum@);
        assert(self.additional@.take(0) == Seq::<Mora>::empty());
        assert(mora_texts(Seq::<Mora>::empty()) == Seq::<MoraText>::empty());
        assert(mora_texts(self.minimum@) + Seq::<MoraText>::empty() == mora_texts(self.minimum@));
        let mut j: usize = 0;
        while j < self.additional.len()
            invariant
                j <= self.additional.len(),
                chars_texts(table@) == mora_texts(self.minimum@) + mora_texts(
                    self.additional@.take(j as int),
                ),
            decreases self.additional.len() - j,
        {
            let m = mora_chars(&self.additional[j]);
            proof {
                lemma_chars_texts_push(table@, m);
                lemma_mora_texts_push(self.additional@.take(j as int), self.additional@[j as int]);
                assert(self.additional@.take(j + 1) == self.additional@.take(j as int).push(
                    self.additional@[j as int],
                ));
                assert((mora_texts(self.minimum@) + mora_texts(self.additional@.take(j as int))).push(
                    m@,
                ) == mora_texts(self.minimum@) + mora_texts(self.additional@.take(j as int)).push(
                    m@,
                ));
            }
            table.push(m);
            j += 1;
        }
        assert(self.additional@.take(j as int) == self.additional@);
        table
    }
}

/// The mora `m` as characters.
pub fn mora_chars(m: &Mora) -> (c: MoraChars)
    ensures
        c@ == m@,
{
    let consonant = match &m.consonant {
        Some(s) => Some(str_to_chars(s.as_str())),
        None => None,
    };
    MoraChars {
        mora: str_to_chars(m.mora.as_str()),
        consonant,
        vowel: str_to_chars(m.vowel.as_str()),
    }
}

/// The table that the library carries, as characters.
pub fn bundled_table() -> (table: Vec<MoraChars>)
    ensures
        chars_texts(table@) == bundled_moras(),
{
    MoraFile::bundled().to_chars()
}

/// Whether the characters `p` are one of `VOWELS`.
pub fn is_vowel_exec(p: &Vec<char>) -> (b: bool)
    ensures
        b == is_vowel(p@),
{
    p.len() == 1 && (p[0] == 'a' || p[0] == 'i' || p[0] == 'u' || p[0] == 'e' || p[0] == 'o'
        || p[0] == 'N')
}

} // verus!
