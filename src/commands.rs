use vstd::prelude::*;
use vstd::slice::slice_to_vec;
use vstd::string::StringSliceAdditionalSpecFns;

use crate::chunk::Chunk;
use crate::chunk_type::{is_type_label, label_bytes, label_error, ChunkType};
use crate::error::PngError;
use crate::png::{has_match, is_first_match, parse_png, serialize_png, Png};

verus! {

/// Adds a chunk of type `chunk_type` holding the text `message` at the end
/// of the file in `input`, and returns the new file.
pub fn encode(input: &[u8], chunk_type: &str, message: &str) -> (r: Result<Vec<u8>, PngError>)
    requires
        message.spec_bytes().len() <= u32::MAX,
    ensures
        parse_png(input@) matches Err(e) ==> r == Err::<Vec<u8>, PngError>(e),
        parse_png(input@) matches Ok(cs) ==> match r {
            Ok(out) => is_type_label(chunk_type@) && out@ == serialize_png(
                cs.push((label_bytes(chunk_type@), message.spec_bytes())),
            ),
            Err(e) => !is_type_label(chunk_type@) && e == label_error(chunk_type@),
        },
{
    let mut png = match Png::try_from(input) {
        Ok(p) => p,
        Err(e) => return Err(e),
    };
    let kind = match ChunkType::from_str(chunk_type) {
        Ok(t) => t,
        Err(e) => return Err(e),
    };
    let data = slice_to_vec(message.as_bytes());
    png.append_chunk(Chunk::new(kind, data));
    Ok(png.as_bytes())
}

/// The first chunk of type `chunk_type` in the file in `input`, if any.
pub fn decode(input: &[u8], chunk_type: &str) -> (r: Result<Option<Chunk>, PngError>)
    ensures
        parse_png(input@) matches Err(e) ==> r matches Err(x) && x == e,
        parse_png(input@) matches Ok(cs) ==> match r {
            Ok(None) => !has_match(cs, chunk_type@),
            Ok(Some(c)) => exists|i: int|
                is_first_match(cs, chunk_type@, i) && c@ == #[trigger] cs[i],
            Err(_) => false,
        },
{
    let png = match Png::try_from(input) {
        Ok(p) => p,
        Err(e) => return Err(e),
    };
    match png.chunk_by_type(chunk_type) {
        Some(c) => {
            let found = c.clone();
            proof {
                let i = choose|i: int| is_first_match(png@, chunk_type@, i) && c@ == #[trigger] png@[i];
                assert(is_first_match(parse_png(input@)->Ok_0, chunk_type@, i));
                assert(found@ == (parse_png(input@)->Ok_0)[i]);
            }
            Ok(Some(found))
        },
        None => Ok(None),
    }
}

/// The file in `input` without its first chunk of type `chunk_type`.
pub fn remove(input: &[u8], chunk_type: &str) -> (r: Result<Vec<u8>, PngError>)
    ensures
        parse_png(input@) matches Err(e) ==> r == Err::<Vec<u8>, PngError>(e),
        parse_png(input@) matches Ok(cs) ==> match r {
            Ok(out) => exists|i: int|
                is_first_match(cs, chunk_type@, i) && out@ == serialize_png(
                    #[trigger] cs.remove(i),
                ),
            Err(e) => e == PngError::ChunkNotFound && !has_match(cs, chunk_type@),
        },
{
    let mut png = match Png::try_from(input) {
        Ok(p) => p,
        Err(e) => return Err(e),
    };
    let ghost before = png@;
    match png.remove_chunk(chunk_type) {
        Ok(c) => {
            let out = png.as_bytes();
            proof {
                let i = choose|i: int|
                    is_first_match(before, chunk_type@, i) && c@ == #[trigger] before[i]
                        && png@ == before.remove(i);
                assert(is_first_match(parse_png(input@)->Ok_0, chunk_type@, i));
                assert(out@ == serialize_png((parse_png(input@)->Ok_0).remove(i)));
            }
            Ok(out)
        },
        Err(e) => Err(e),
    }
}

} // verus!
