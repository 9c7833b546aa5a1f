//! The archive that carries one voice: a zstd frame around a tar archive
//! with the members `model.onnx` and `style_vectors.json`.

use vstd::prelude::*;
use crate::chars::{same_chars, str_to_chars};
use crate::error::Error;
use crate::utils::copy_of;

verus! {

/// What `bytes`, read as zstd frames, decompress to, if they can be read so.
pub uninterp spec fn zstd_decoded(bytes: Seq<u8>) -> Option<Seq<u8>>;

/// What walking the tar archive `bytes` gives: its members in the order
/// in which they stand, each with its path and what can be read of its
/// contents, up to the end of the archive or to the first entry that
/// cannot be read as a member; and whether the walk ended on such an
/// entry. `None` where reading the archive or the contents of a member
/// fails.
pub uninterp spec fn tar_members(bytes: Seq<u8>) -> Option<(Seq<(Seq<char>, Seq<u8>)>, bool)>;

/// The name of the member that holds the model.
pub const MODEL_MEMBER: &'static str = "model.onnx";

/// The name of the member that holds the style table.
pub const STYLE_MEMBER: &'static str = "style_vectors.json";

/// The members as plain values.
pub open spec fn members_view(members: Seq<(String, Vec<u8>)>) -> Seq<(Seq<char>, Seq<u8>)> {
    members.map_values(|m: (String, Vec<u8>)| (m.0@, m.1@))
}

/// The contents of the last of the first `n` members that has the path
/// `name`.
pub open spec fn last_named(members: Seq<(Seq<char>, Seq<u8>)>, name: Seq<char>, n: int) -> Option<
    Seq<u8>,
>
    decreases n,
{
    if n <= 0 {
        None
    } else if members[n - 1].0 == name {
        Some(members[n - 1].1)
    } else {
        last_named(members, name, n - 1)
    }
}

/// The style table and the model among `members`, or the name of what is
/// missing: `style_vectors` where there is no style table, else `vits2`.
pub open spec fn selected(members: Seq<(Seq<char>, Seq<u8>)>) -> Result<
    (Seq<u8>, Seq<u8>),
    Seq<char>,
> {
    match last_named(members, STYLE_MEMBER@, members.len() as int) {
        None => Err("style_vectors"@),
        Some(style) => match last_named(members, MODEL_MEMBER@, members.len() as int) {
            None => Err("vits2"@),
            Some(model) => Ok((style, model)),
        },
    }
}

/// The style table and the model that the archive `bytes` carries. They
/// are looked for among the members that the walk over the archive gives;
/// whether the walk ended on an entry that cannot be read makes no
/// difference, so that members that stand before such an entry count.
pub open spec fn parsed(bytes: Seq<u8>) -> Option<Result<(Seq<u8>, Seq<u8>), Seq<char>>> {
    match zstd_decoded(bytes) {
        None => None,
        Some(tar) => match tar_members(tar) {
            None => None,
            Some((members, _)) => Some(selected(members)),
        },
    }
}

/// `zstd::decode_all` on a cursor over `bytes`: the whole buffer is
/// decompressed as zstd frames. The contract only names the result.
#[verifier::external_body]
fn decode_all(bytes: &Vec<u8>) -> (r: Result<Vec<u8>, std::io::Error>)
    ensures
        match r {
            Ok(out) => zstd_decoded(bytes@) == Some(out@),
            Err(_) => zstd_decoded(bytes@) is None,
        },
{
    zstd::decode_all(std::io::Cursor::new(bytes.as_slice()))
}

/// `tar::Archive::entries` over `tar_bytes`, walked with `next` to its end
/// or to the first entry that the iterator gives as an error; of each entry
/// before that, `path_bytes` as text, with what is not UTF-8 replaced, and
/// the contents that `read_to_end` gives. The second part of the result
/// says whether the walk ended on an error. The contract only names the
/// result.
#[verifier::external_body]
fn archive_members(tar_bytes: &Vec<u8>) -> (r: Result<
    (Vec<(String, Vec<u8>)>, bool),
    std::io::Error,
>)
    ensures
        match r {
            Ok((members, broken)) => tar_members(tar_bytes@) == Some(
                (members_view(members@), broken),
            ),
            Err(_) => tar_members(tar_bytes@) is None,
        },
{
    let mut archive = tar::Archive::new(std::io::Cursor::new(tar_bytes.as_slice()));
    let mut members = Vec::new();
    let mut entries = archive.entries()?;
    loop {
        match entries.next() {
            None => return Ok((members, false)),
            Some(Err(_)) => return Ok((members, true)),
            Some(Ok(mut entry)) => {
                let path = String::from_utf8_lossy(&entry.path_bytes()).to_string();
                let mut contents = Vec::new();
                std::io::Read::read_to_end(&mut entry, &mut contents)?;
                members.push((path, contents));
            },
        }
    }
}

/// The style table and the model among the members of an archive. Of
/// several members with one name the last counts; members with other names
/// are passed over.
pub fn select_members(members: &Vec<(String, Vec<u8>)>) -> (r: Result<(Vec<u8>, Vec<u8>), Error>)
    ensures
        match r {
            Ok((style, model)) => selected(members_view(members@)) == Ok::<
                (Seq<u8>, Seq<u8>),
                Seq<char>,
            >((style@, model@)),
            Err(e) => selected(members_view(members@)) matches Err(name) && e
                matches Error::ModelNotFoundError(s) && s@ == name,
        },
{
    let ghost mv = members_view(members@);
    let model_name = str_to_chars(MODEL_MEMBER);
    let style_name = str_to_chars(STYLE_MEMBER);
    let mut vits2: Option<usize> = None;
    let mut style_vectors: Option<usize> = None;
    let mut i: usize = 0;
    while i < members.len()
        invariant
            i <= members.len(),
            mv == members_view(members@),
            model_name@ == MODEL_MEMBER@,
            style_name@ == STYLE_MEMBER@,
            match vits2 {
                Some(k) => k < i && last_named(mv, MODEL_MEMBER@, i as int) == Some(mv[k as int].1),
                None => last_named(mv, MODEL_MEMBER@, i as int) is None,
            },
            match style_vectors {
                Some(k) => k < i && last_named(mv, STYLE_MEMBER@, i as int) == Some(
                    mv[k as int].1,
                ),
                None => last_named(mv, STYLE_MEMBER@, i as int) is None,
            },
        decreases members.len() - i,
    {
        let path = str_to_chars(members[i].0.as_str());
        assert(mv[i as int].0 == path@);
        if same_chars(&path, &model_name) {
            vits2 = Some(i);
        }
        if same_chars(&path, &style_name) {
            style_vectors = Some(i);
        }
        i += 1;
    }
    let style = match style_vectors {
        None => {
            return Err(Error::ModelNotFoundError("style_vectors".to_owned()));
        },
        Some(k) => k,
    };
    let model = match vits2 {
        None => {
            return Err(Error::ModelNotFoundError("vits2".to_owned()));
        },
        Some(k) => k,
    };
    assert(mv[style as int].1 == members@[style as int].1@);
    assert(mv[model as int].1 == members@[model as int].1@);
    Ok((copy_of(&members[style].1), copy_of(&members[model].1)))
}

/// Takes the archive of a voice apart: first the style table, then the
/// model. An entry that cannot be read ends the walk over the archive;
/// the members before it count, and those behind it are not looked at.
pub fn parse_sbv2file(sbv2_bytes: &Vec<u8>) -> (r: Result<(Vec<u8>, Vec<u8>), Error>)
    ensures
        match r {
            Ok((style, model)) => parsed(sbv2_bytes@) == Some(
                Ok::<(Seq<u8>, Seq<u8>), Seq<char>>((style@, model@)),
            ),
            Err(e) => match parsed(sbv2_bytes@) {
                None => e is IoError,
                Some(Err(name)) => e matches Error::ModelNotFoundError(s) && s@ == name,
                Some(Ok(_)) => false,
            },
        },
{
    let tar_bytes = match decode_all(sbv2_bytes) {
        Ok(out) => out,
        Err(e) => {
            return Err(Error::IoError(e));
        },
    };
    let (members, _broken) = match archive_members(&tar_bytes) {
        Ok(walked) => walked,
        Err(e) => {
            return Err(Error::IoError(e));
        },
    };
    select_members(&members)
}

} // verus!
