use vstd::prelude::*;
use vstd::slice::slice_subrange;

use crate::chunk::{append_bytes, lemma_record_round_trip, be32_value, parse_record, read_be32, record_bytes, Chunk, ChunkView};
use crate::chunk_type::names_type;
use crate::error::PngError;

verus! {

/// The eight bytes that open every PNG file.
pub const STANDARD_HEADER: [u8; 8] = [137, 80, 78, 71, 13, 10, 26, 10];

pub open spec fn signature() -> Seq<u8> {
    seq![137u8, 80u8, 78u8, 71u8, 13u8, 10u8, 26u8, 10u8]
}

/// What the records that follow the signature read as, front to back.
pub open spec fn parse_records(b: Seq<u8>) -> Result<Seq<ChunkView>, PngError>
    decreases b.len(),
{
    if b.len() == 0 {
        Ok(Seq::empty())
    } else if b.len() < 12 {
        Err(PngError::Truncated)
    } else {
        let end = 12 + be32_value(b.subrange(0, 4));
        if b.len() < end {
            Err(PngError::Truncated)
        } else {
            match parse_record(b.subrange(0, end)) {
                Err(e) => Err(e),
                Ok(c) => match parse_records(b.subrange(end, b.len() as int)) {
                    Ok(rest) => Ok(seq![c] + rest),
                    Err(e) => Err(e),
                },
            }
        }
    }
}

/// What a whole file reads as.
pub open spec fn parse_png(b: Seq<u8>) -> Result<Seq<ChunkView>, PngError> {
    if b.len() < 8 || b.subrange(0, 8) != signature() {
        Err(PngError::BadSignature)
    } else {
        parse_records(b.subrange(8, b.len() as int))
    }
}

/// The records written back to back.
pub open spec fn serialize_records(cs: Seq<ChunkView>) -> Seq<u8>
    decreases cs.len(),
{
    if cs.len() == 0 {
        Seq::empty()
    } else {
        record_bytes(cs[0]) + serialize_records(cs.drop_first())
    }
}

/// A whole file: the signature, then the records.
pub open spec fn serialize_png(cs: Seq<ChunkView>) -> Seq<u8> {
    signature() + serialize_records(cs)
}

/// `i` is the first position whose chunk type renders as `label`.
pub open spec fn is_first_match(cs: Seq<ChunkView>, label: Seq<char>, i: int) -> bool {
    &&& 0 <= i < cs.len()
    &&& names_type(label, cs[i].0)
    &&& forall|j: int| 0 <= j < i ==> !names_type(label, #[trigger] cs[j].0)
}

/// Some chunk type renders as `label`.
pub open spec fn has_match(cs: Seq<ChunkView>, label: Seq<char>) -> bool {
    exists|i: int| 0 <= i < cs.len() && names_type(label, #[trigger] cs[i].0)
}

/// What each chunk of a sequence is.
pub open spec fn views_of(cs: Seq<Chunk>) -> Seq<ChunkView> {
    cs.map_values(|c: Chunk| c@)
}

/// `done` in front of whatever the rest reads as.
pub open spec fn prepend(
    done: Seq<ChunkView>,
    rest: Result<Seq<ChunkView>, PngError>,
) -> Result<Seq<ChunkView>, PngError> {
    match rest {
        Ok(cs) => Ok(done + cs),
        Err(e) => Err(e),
    }
}

proof fn lemma_serialize_push(cs: Seq<ChunkView>, c: ChunkView)
    ensures
        serialize_records(cs.push(c)) == serialize_records(cs) + record_bytes(c),
    decreases cs.len(),
{
    if cs.len() == 0 {
        assert(cs.push(c).drop_first() =~= Seq::<ChunkView>::empty());
        assert(serialize_records(Seq::<ChunkView>::empty()) == Seq::<u8>::empty());
        assert(cs.push(c)[0] == c);
        assert(serialize_records(cs.push(c)) =~= record_bytes(c));
    } else {
        assert(cs.push(c).drop_first() =~= cs.drop_first().push(c));
        lemma_serialize_push(cs.drop_first(), c);
        assert(serialize_records(cs.push(c)) =~= serialize_records(cs) + record_bytes(c));
    }
}

/// A chunk as it can stand in a file: four type bytes and a length that fits
/// the length field.
pub open spec fn is_well_formed(c: ChunkView) -> bool {
    c.0.len() == 4 && c.1.len() <= u32::MAX
}

proof fn lemma_parse_after_record(head: Seq<u8>, tail: Seq<u8>)
    requires
        parse_record(head) is Ok,
    ensures
        parse_records(head + tail) == prepend(seq![parse_record(head)->Ok_0], parse_records(tail)),
{
    let s = head + tail;
    assert(s.subrange(0, 4) =~= head.subrange(0, 4));
    assert(s.subrange(0, head.len() as int) =~= head);
    assert(s.subrange(head.len() as int, s.len() as int) =~= tail);
}

proof fn lemma_records_round_trip(cs: Seq<ChunkView>)
    requires
        forall|i: int| 0 <= i < cs.len() ==> is_well_formed(#[trigger] cs[i]),
    ensures
        parse_records(serialize_records(cs)) == Ok::<Seq<ChunkView>, PngError>(cs),
    decreases cs.len(),
{
    if cs.len() == 0 {
        assert(serialize_records(cs) =~= Seq::<u8>::empty());
        assert(cs =~= Seq::<ChunkView>::empty());
    } else {
        let c = cs[0];
        let rest = cs.drop_first();
        assert(is_well_formed(c));
        assert forall|i: int| 0 <= i < rest.len() implies is_well_formed(#[trigger] rest[i]) by {
            assert(rest[i] == cs[i + 1]);
        }
        lemma_records_round_trip(rest);
        let head = record_bytes(c);
        let tail = serialize_records(rest);
        assert(parse_record(head) == Ok::<ChunkView, PngError>(c)) by {
            lemma_record_round_trip(c);
        }
        assert(serialize_records(cs) == head + tail);
        lemma_parse_after_record(head, tail);
        assert(seq![c] + rest =~= cs);
    }
}

proof fn lemma_parsed_well_formed(b: Seq<u8>)
    requires
        parse_records(b) is Ok,
    ensures
        forall|i: int|
            0 <= i < (parse_records(b)->Ok_0).len() ==> is_well_formed(
                #[trigger] (parse_records(b)->Ok_0)[i],
            ),
    decreases b.len(),
{
    if b.len() > 0 {
        let end = 12 + be32_value(b.subrange(0, 4));
        let tail = b.subrange(end, b.len() as int);
        lemma_parsed_well_formed(tail);
        let c = parse_record(b.subrange(0, end))->Ok_0;
        let cs = parse_records(b)->Ok_0;
        assert(cs == seq![c] + (parse_records(tail)->Ok_0));
        assert forall|i: int| 0 <= i < (parse_records(b)->Ok_0).len() implies is_well_formed(
            #[trigger] (parse_records(b)->Ok_0)[i],
        ) by {
            if i > 0 {
                assert(cs[i] == (parse_records(tail)->Ok_0)[i - 1]);
            }
        }
    }
}

/// Writing out the chunks that a file reads as, and reading the result,
/// gives back the same chunks in the same order.
pub proof fn lemma_round_trip(b: Seq<u8>)
    requires
        parse_png(b) is Ok,
    ensures
        parse_png(serialize_png(parse_png(b)->Ok_0)) == parse_png(b),
{
    let cs = parse_png(b)->Ok_0;
    lemma_parsed_well_formed(b.subrange(8, b.len() as int));
    lemma_records_round_trip(cs);
    let out = serialize_png(cs);
    assert(out.subrange(0, 8) =~= signature());
    assert(out.subrange(8, out.len() as int) =~= serialize_records(cs));
}

/// When no chunk yet has the type that `label` names, appending a chunk of
/// that type and then removing by `label` takes out that very chunk and leaves
/// the earlier sequence.
pub proof fn lemma_append_then_remove(cs: Seq<ChunkView>, c: ChunkView, label: Seq<char>)
    requires
        names_type(label, c.0),
        !has_match(cs, label),
    ensures
        has_match(cs.push(c), label),
        forall|i: int|
            is_first_match(cs.push(c), label, i) ==> i == cs.len() && #[trigger] cs.push(c)[i] == c
                && cs.push(c).remove(i) == cs,
{
    let grown = cs.push(c);
    assert(grown[cs.len() as int] == c);
    assert forall|i: int| is_first_match(grown, label, i) implies i == cs.len() && #[trigger] grown[i]
        == c && grown.remove(i) == cs by {
        if i < cs.len() {
            assert(grown[i] == cs[i]);
        }
        assert(grown.remove(i) =~= cs);
    }
}

/// There is at most one first match: a lookup by label can never land on a
/// later chunk of the same type.
pub proof fn lemma_first_match_unique(cs: Seq<ChunkView>, label: Seq<char>, i: int, j: int)
    requires
        is_first_match(cs, label, i),
        is_first_match(cs, label, j),
    ensures
        i == j,
{
    if i < j {
        assert(names_type(label, cs[i].0));
    } else if j < i {
        assert(names_type(label, cs[j].0));
    }
}

/// A PNG file held as its ordered chunks.
pub struct Png {
    chunks: Vec<Chunk>,
}

impl View for Png {
    type V = Seq<ChunkView>;

    closed spec fn view(&self) -> Seq<ChunkView> {
        views_of(self.chunks@)
    }
}

impl Png {
    pub fn from_chunks(chunks: Vec<Chunk>) -> (r: Png)
        ensures
            r@ == views_of(chunks@),
    {
        Png { chunks }
    }

    /// Adds a chunk at the end, after every chunk already there (a trailing
    /// `IEND` included); nothing is checked against the chunks present.
    pub fn append_chunk(&mut self, chunk: Chunk)
        ensures
            final(self)@ == old(self)@.push(chunk@),
    {
        self.chunks.push(chunk);
        assert(self@ =~= old(self)@.push(chunk@));
    }

    /// Reads a whole file: the signature, then records until the bytes run out.
    pub fn try_from(bytes: &[u8]) -> (r: Result<Png, PngError>)
        ensures
            parse_png(bytes@) == match r {
                Ok(p) => Ok(p@),
                Err(e) => Err::<Seq<ChunkView>, PngError>(e),
            },
    {
        let len = bytes.len();
        if len < 8 {
            return Err(PngError::BadSignature);
        }
        let mut i: usize = 0;
        while i < 8
            invariant
                i <= 8 <= len == bytes@.len(),
                STANDARD_HEADER@ == signature(),
                forall|j: int| 0 <= j < i ==> #[trigger] bytes@[j] == signature()[j],
            decreases 8 - i,
        {
            if bytes[i] != STANDARD_HEADER[i] {
                assert(bytes@.subrange(0, 8)[i as int] != signature()[i as int]);
                return Err(PngError::BadSignature);
            }
            i = i + 1;
        }
        assert(bytes@.subrange(0, 8) =~= signature());
        let mut chunks: Vec<Chunk> = Vec::new();
        let mut pos: usize = 8;
        assert(views_of(chunks@) + Seq::<ChunkView>::empty() =~= Seq::<ChunkView>::empty());
        while pos < len
            invariant
                8 <= pos <= len == bytes@.len(),
                parse_png(bytes@) == prepend(
                    views_of(chunks@),
                    parse_records(bytes@.subrange(pos as int, len as int)),
                ),
            decreases len - pos,
        {
            let ghost rest = bytes@.subrange(pos as int, len as int);
            let remaining = len - pos;
            if remaining < 12 {
                return Err(PngError::Truncated);
            }
            let n = read_be32(bytes, pos);
            assert(rest.subrange(0, 4) =~= bytes@.subrange(pos as int, pos + 4));
            if (remaining as u64) < 12 + (n as u64) {
                return Err(PngError::Truncated);
            }
            let end = pos + 12 + n as usize;
            let record = slice_subrange(bytes, pos, end);
            assert(rest.subrange(0, 12 + n) =~= record@);
            assert(rest.subrange(12 + n, rest.len() as int) =~= bytes@.subrange(
                end as int,
                len as int,
            ));
            match Chunk::try_from(record) {
                Err(e) => {
                    return Err(e);
                },
                Ok(c) => {
                    let ghost before = views_of(chunks@);
                    chunks.push(c);
                    assert(views_of(chunks@) =~= before.push(c@));
                    assert(before + (seq![c@] + Seq::<ChunkView>::empty()) =~= before.push(c@)
                        + Seq::<ChunkView>::empty());
                    proof {
                        if let Ok(more) = parse_records(bytes@.subrange(end as int, len as int)) {
                            assert(before + (seq![c@] + more) =~= before.push(c@) + more);
                        }
                    }
                },
            }
            pos = end;
        }
        assert(bytes@.subrange(pos as int, len as int) =~= Seq::<u8>::empty());
        assert(views_of(chunks@) + Seq::<ChunkView>::empty() =~= views_of(chunks@));
        Ok(Png { chunks })
    }

    /// The whole file: the signature, then each chunk's record in order.
    pub fn as_bytes(&self) -> (r: Vec<u8>)
        ensures
            r@ == serialize_png(self@),
    {
        let mut out: Vec<u8> = Vec::new();
        let header = STANDARD_HEADER;
        append_bytes(&mut out, header.as_slice());
        let mut i: usize = 0;
        assert(self@.subrange(0, 0) =~= Seq::<ChunkView>::empty());
        assert(out@ =~= signature() + serialize_records(self@.subrange(0, 0)));
        while i < self.chunks.len()
            invariant
                i <= self.chunks@.len() == self@.len(),
                out@ == signature() + serialize_records(self@.subrange(0, i as int)),
            decreases self.chunks@.len() - i,
        {
            let record = self.chunks[i].as_bytes();
            append_bytes(&mut out, record.as_slice());
            proof {
                assert(self@.subrange(0, i + 1) =~= self@.subrange(0, i as int).push(self@[i as int]));
                lemma_serialize_push(self@.subrange(0, i as int), self@[i as int]);
            }
            i = i + 1;
        }
        assert(self@.subrange(0, i as int) =~= self@);
        out
    }

    /// The first chunk whose type renders as `chunk_type`, if there is one.
    pub fn chunk_by_type(&self, chunk_type: &str) -> (r: Option<&Chunk>)
        ensures
            r is Some <==> has_match(self@, chunk_type@),
            r matches Some(c) ==> exists|i: int|
                is_first_match(self@, chunk_type@, i) && c@ == #[trigger] self@[i],
    {
        match self.position_of(chunk_type) {
            Some(i) => Some(&self.chunks[i]),
            None => None,
        }
    }

    fn position_of(&self, label: &str) -> (r: Option<usize>)
        ensures
            r is Some <==> has_match(self@, label@),
            r matches Some(i) ==> is_first_match(self@, label@, i as int),
    {
        let mut i: usize = 0;
        while i < self.chunks.len()
            invariant
                i <= self.chunks@.len() == self@.len(),
                forall|j: int| 0 <= j < i ==> !names_type(label@, #[trigger] self@[j].0),
            decreases self.chunks@.len() - i,
        {
            if self.chunks[i].chunk_type().matches_label(label) {
                assert(self@[i as int] == self.chunks@[i as int]@);
                assert(names_type(label@, self@[i as int].0));
                return Some(i);
            }
            i = i + 1;
        }
        None
    }

    /// Takes out the first chunk whose type renders as `chunk_type`; later
    /// chunks of that type stay.
    pub fn remove_chunk(&mut self, chunk_type: &str) -> (r: Result<Chunk, PngError>)
        ensures
            r is Ok <==> has_match(old(self)@, chunk_type@),
            r matches Ok(c) ==> exists|i: int|
                is_first_match(old(self)@, chunk_type@, i) && c@ == #[trigger] old(self)@[i]
                    && final(self)@ == old(self)@.remove(i),
            r matches Err(e) ==> e == PngError::ChunkNotFound && final(self)@ == old(self)@,
    {
        match self.position_of(chunk_type) {
            Some(i) => {
                let c = self.chunks.remove(i);
                assert(self@ =~= old(self)@.remove(i as int));
                Ok(c)
            },
            None => Err(PngError::ChunkNotFound),
        }
    }

    pub fn chunks(&self) -> (r: &[Chunk])
        ensures
            views_of(r@) == self@,
    {
        self.chunks.as_slice()
    }
}

impl<'a> TryFrom<&'a [u8]> for Png {
    type Error = PngError;

    fn try_from(bytes: &'a [u8]) -> (r: Result<Png, PngError>) {
        Png::try_from(bytes)
    }
}

/// What the conversion yields is stated on `Png::try_from`; nothing is
/// claimed through the trait.
impl<'a> vstd::std_specs::convert::TryFromSpecImpl<&'a [u8]> for Png {
    open spec fn obeys_try_from_spec() -> bool {
        false
    }

    open spec fn try_from_spec(v: &'a [u8]) -> Result<Png, PngError> {
        Err(PngError::BadSignature)
    }
}

} // verus!
