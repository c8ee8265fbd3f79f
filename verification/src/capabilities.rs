//! What the server says it can do, as the `CAPABILITIES` command lists it,
//! and the question whether it can do a given thing.
//!
//! The list is one capability per line. A line whose first word is
//! `XFEATURE-COMPRESS` names the compressions the server offers after it;
//! the words that name no known compression are passed over. Every other
//! line is kept as it stands.

use vstd::prelude::*;
use vstd::utf8::{decode_utf8, valid_utf8};
use crate::text::{
    are_piece_starts, chars_of, lemma_first_piece, lemma_split_concat, lemma_split_nonempty,
    lemma_split_single, lines,
    lines_of, piece_matches, piece_starts, range_equals, split_on,
};

verus! {

/// A compression that a server may offer.
#[allow(non_camel_case_types)]
#[derive(Clone, Copy, Debug, PartialEq, Eq, Structural, Hash)]
pub enum Compression {
    GZIP,
    DEFLATE,
    TERMINATOR,
}

/// One capability of the server.
#[allow(non_camel_case_types)]
#[derive(Debug)]
pub enum Capability {
    /// `XFEATURE-COMPRESS` and the compressions it offers.
    XFEATURE_COMPRESS(Vec<Compression>),
    /// Any other capability line, as it stands.
    Other(String),
}

/// Why a capability list could not be read.
#[derive(Debug)]
pub enum CapabilitiesError {
    /// The compressed list did not inflate.
    DeflateFailed,
    /// The list is not UTF-8.
    InvalidUtf8,
}

/// How many bytes of an inflated capability list are kept.
pub const CAPABILITIES_BUFFER_SIZE: usize = 8192;

/// Two capabilities are the same: the same variant, with the same contents.
pub open spec fn same_capability(a: Capability, b: Capability) -> bool {
    match (a, b) {
        (Capability::XFEATURE_COMPRESS(x), Capability::XFEATURE_COMPRESS(y)) => x@ == y@,
        (Capability::Other(s), Capability::Other(t)) => s@ == t@,
        _ => false,
    }
}

/// The compression that a word of an `XFEATURE-COMPRESS` line names.
pub open spec fn compression_of(word: Seq<char>) -> Option<Compression> {
    if word == "GZIP"@ {
        Some(Compression::GZIP)
    } else if word == "DEFLATE"@ {
        Some(Compression::DEFLATE)
    } else if word == "TERMINATOR"@ {
        Some(Compression::TERMINATOR)
    } else {
        None
    }
}

/// The compressions that `words` name, in order, the other words passed over.
pub open spec fn compressions_of(words: Seq<Seq<char>>) -> Seq<Compression>
    decreases words.len(),
{
    if words.len() == 0 {
        Seq::<Compression>::empty()
    } else {
        let init = compressions_of(words.drop_last());
        match compression_of(words.last()) {
            Some(c) => init.push(c),
            None => init,
        }
    }
}

/// `cap` is what the capability line `line` says.
pub open spec fn capability_of_line(line: Seq<char>, cap: Capability) -> bool {
    let words = split_on(line, ' ');
    if words[0] == "XFEATURE-COMPRESS"@ {
        cap matches Capability::XFEATURE_COMPRESS(offered) && offered@ == compressions_of(
            words.drop_first(),
        )
    } else {
        cap matches Capability::Other(text) && text@ == line
    }
}

/// `caps` is what the capability list `text` says, line by line.
pub open spec fn capabilities_of_text(text: Seq<char>, caps: Seq<Capability>) -> bool {
    let ls = lines_of(text);
    &&& caps.len() == ls.len()
    &&& forall|i: int| 0 <= i < ls.len() ==> #[trigger] capability_of_line(ls[i], caps[i])
}

/// The compressions offered by the first `XFEATURE-COMPRESS` capability of the list.
pub open spec fn first_offered(caps: Seq<Capability>) -> Option<Seq<Compression>>
    decreases caps.len(),
{
    if caps.len() == 0 {
        None
    } else {
        match caps[0] {
            Capability::XFEATURE_COMPRESS(offered) => Some(offered@),
            _ => first_offered(caps.drop_first()),
        }
    }
}

/// Every compression asked for is among those offered.
pub open spec fn offers_all_spec(offered: Seq<Compression>, asked: Seq<Compression>) -> bool {
    forall|i: int| 0 <= i < asked.len() ==> offered.contains(#[trigger] asked[i])
}

/// Whether a server with the capabilities `known` (`None`: not asked yet) can do `ask`.
/// Compressions are asked for as a set: the first `XFEATURE-COMPRESS` line must
/// offer every one of them. Any other capability must be in the list as it is.
pub open spec fn can_spec(known: Option<Seq<Capability>>, ask: Capability) -> bool {
    match known {
        None => false,
        Some(caps) => match ask {
            Capability::XFEATURE_COMPRESS(asked) => first_offered(caps) matches Some(offered)
                && offers_all_spec(offered, asked@),
            _ => exists|i: int| 0 <= i < caps.len() && #[trigger] same_capability(caps[i], ask),
        },
    }
}

/// The compression that `s[begin..end]` names.
fn compression_in(s: &Vec<char>, begin: usize, end: usize) -> (r: Option<Compression>)
    requires
        begin <= end <= s.len(),
    ensures
        r == compression_of(s@.subrange(begin as int, end as int)),
{
    if range_equals(s, begin, end, "GZIP") {
        Some(Compression::GZIP)
    } else if range_equals(s, begin, end, "DEFLATE") {
        Some(Compression::DEFLATE)
    } else if range_equals(s, begin, end, "TERMINATOR") {
        Some(Compression::TERMINATOR)
    } else {
        None
    }
}

/// What one capability line says.
pub fn parse_capability(line: &str) -> (cap: Capability)
    ensures
        capability_of_line(line@, cap),
{
    let chars = chars_of(line);
    let starts = piece_starts(&chars, ' ');
    let ghost words = split_on(line@, ' ');
    let n = starts.len();
    assert(piece_matches(chars@, ' ', starts@, 0));
    let first_end = if 1 < n {
        starts[1] - 1
    } else {
        chars.len()
    };
    if !range_equals(&chars, 0, first_end, "XFEATURE-COMPRESS") {
        return Capability::Other(String::from_str(line));
    }
    let mut offered: Vec<Compression> = Vec::new();
    let mut m: usize = 1;
    assert(words.subrange(1, 1) =~= Seq::<Seq<char>>::empty());
    while m < n
        invariant
            1 <= m <= n,
            n == starts.len(),
            chars@ == line@,
            words == split_on(line@, ' '),
            are_piece_starts(chars@, ' ', starts@),
            offered@ == compressions_of(words.subrange(1, m as int)),
        decreases n - m,
    {
        assert(piece_matches(chars@, ' ', starts@, m as int));
        let end = if m + 1 < n {
            starts[m + 1] - 1
        } else {
            chars.len()
        };
        let found = compression_in(&chars, starts[m], end);
        assert(words.subrange(1, m + 1).drop_last() =~= words.subrange(1, m as int));
        match found {
            Some(c) => offered.push(c),
            None => {},
        }
        m = m + 1;
    }
    assert(words.subrange(1, n as int) =~= words.drop_first());
    Capability::XFEATURE_COMPRESS(offered)
}

/// `std::str::from_utf8`: the text that `bytes` encode, where they are UTF-8.
#[verifier::external_body]
fn str_from_utf8(bytes: &[u8]) -> (r: Option<&str>)
    ensures
        r is Some <==> valid_utf8(bytes@),
        r matches Some(text) ==> text@ == decode_utf8(bytes@),
{
    std::str::from_utf8(bytes).ok()
}

/// Reads a capability list that came uncompressed: one capability per line.
pub fn parse_capabilities(text: &[u8]) -> (r: Result<Vec<Capability>, CapabilitiesError>)
    ensures
        r is Ok <==> valid_utf8(text@),
        r matches Err(e) ==> e is InvalidUtf8,
        r matches Ok(caps) ==> capabilities_of_text(decode_utf8(text@), caps@),
{
    let text = match str_from_utf8(text) {
        Some(t) => t,
        None => {
            return Err(CapabilitiesError::InvalidUtf8);
        },
    };
    let ls = lines(text);
    let mut caps: Vec<Capability> = Vec::new();
    let mut i: usize = 0;
    while i < ls.len()
        invariant
            i <= ls.len(),
            ls.len() == lines_of(text@).len(),
            forall|j: int| 0 <= j < ls.len() ==> #[trigger] ls@[j]@ == lines_of(text@)[j],
            caps.len() == i,
            forall|j: int| 0 <= j < i ==> #[trigger] capability_of_line(lines_of(text@)[j], caps@[j]),
        decreases ls.len() - i,
    {
        let cap = parse_capability(ls[i].as_str());
        assert(ls@[i as int]@ == lines_of(text@)[i as int]);
        caps.push(cap);
        i = i + 1;
    }
    Ok(caps)
}

/// `flate2::DecompressError`, carried through as it stands.
#[verifier::external_type_specification]
#[verifier::external_body]
pub struct ExDecompressError(flate2::DecompressError);

/// What one `flate2::Decompress::decompress` call, made with `FlushDecompress::None`
/// on a fresh zlib-format inflater, writes into an output buffer of `capacity`
/// bytes for the input `input`; `None` where it reports an error.
pub uninterp spec fn zlib_inflate(input: Seq<u8>, capacity: nat) -> Option<Seq<u8>>;

/// Inflates `input` as a zlib stream: `flate2::Decompress::new(true)`, then one
/// `decompress` call with `FlushDecompress::None` into `capacity` zero bytes, of
/// which the first `total_out()` are handed back. The claim: the outcome depends on
/// `input` and `capacity` alone (`zlib_inflate`), and at most `capacity` bytes come
/// out, as the buffer holds no more. Nothing is said of which bytes come out.
#[verifier::external_body]
fn inflate_zlib(input: &[u8], capacity: usize) -> (r: Result<Vec<u8>, flate2::DecompressError>)
    ensures
        match r {
            Ok(out) => zlib_inflate(input@, capacity as nat) == Some(out@) && out@.len() <= capacity,
            Err(_) => zlib_inflate(input@, capacity as nat) is None,
        },
{
    let mut inflater = flate2::Decompress::new(true);
    let mut output = vec![0u8; capacity];
    match inflater.decompress(input, &mut output, flate2::FlushDecompress::None) {
        Ok(_) => {
            output.truncate(inflater.total_out() as usize);
            Ok(output)
        },
        Err(e) => Err(e),
    }
}

/// The text of a capability list as it came: inflated first where the
/// connection compresses (keeping at most `CAPABILITIES_BUFFER_SIZE` bytes).
pub open spec fn capability_bytes(body: Seq<u8>, gzip: bool) -> Option<Seq<u8>> {
    if gzip {
        zlib_inflate(body, CAPABILITIES_BUFFER_SIZE as nat)
    } else {
        Some(body)
    }
}

/// Reads the body of a `CAPABILITIES` reply, inflating it first where the
/// connection compresses.
pub fn decode_capabilities(body: &[u8], gzip: bool) -> (r: Result<Vec<Capability>, CapabilitiesError>)
    ensures
        match capability_bytes(body@, gzip) {
            None => r matches Err(e) && e is DeflateFailed,
            Some(text) => {
                &&& r is Ok <==> valid_utf8(text)
                &&& r matches Err(e) ==> e is InvalidUtf8
                &&& r matches Ok(caps) ==> capabilities_of_text(decode_utf8(text), caps@)
            },
        },
{
    if gzip {
        match inflate_zlib(body, CAPABILITIES_BUFFER_SIZE) {
            Ok(text) => parse_capabilities(text.as_slice()),
            Err(_) => Err(CapabilitiesError::DeflateFailed),
        }
    } else {
        parse_capabilities(body)
    }
}

/// Whether a server with the capabilities `known` can do `ask`.
pub fn can(known: &Option<Vec<Capability>>, ask: &Capability) -> (r: bool)
    ensures
        r == can_spec(
            match known {
                Some(caps) => Some(caps@),
                None => None,
            },
            *ask,
        ),
{
    let caps = match known {
        Some(caps) => caps,
        None => {
            return false;
        },
    };
    match ask {
        Capability::XFEATURE_COMPRESS(asked) => {
            let mut i: usize = 0;
            assert(caps@.skip(0) =~= caps@);
            while i < caps.len()
                invariant
                    i <= caps.len(),
                    *known == Some(*caps),
                    *ask == Capability::XFEATURE_COMPRESS(*asked),
                    first_offered(caps@) == first_offered(caps@.skip(i as int)),
                decreases caps.len() - i,
            {
                assert(caps@.skip(i as int).drop_first() =~= caps@.skip(i + 1));
                match &caps[i] {
                    Capability::XFEATURE_COMPRESS(offered) => {
                        assert(first_offered(caps@) == Some(offered@));
                        let r = offers_all(offered, asked);
                        assert(r == can_spec(Some(caps@), *ask));
                        return r;
                    },
                    Capability::Other(_) => {},
                }
                i = i + 1;
            }
            assert(caps@.skip(i as int) =~= Seq::<Capability>::empty());
            false
        },
        Capability::Other(wanted) => {
            let mut i: usize = 0;
            while i < caps.len()
                invariant
                    i <= caps.len(),
                    *known == Some(*caps),
                    *ask == Capability::Other(*wanted),
                    forall|j: int| 0 <= j < i ==> !#[trigger] same_capability(caps@[j], *ask),
                decreases caps.len() - i,
            {
                match &caps[i] {
                    Capability::Other(text) => {
                        if *text == *wanted {
                            assert(same_capability(caps@[i as int], *ask));
                            return true;
                        }
                    },
                    Capability::XFEATURE_COMPRESS(_) => {},
                }
                i = i + 1;
            }
            false
        },
    }
}

/// Whether every compression asked for is among those offered.
fn offers_all(offered: &Vec<Compression>, asked: &Vec<Compression>) -> (r: bool)
    ensures
        r == offers_all_spec(offered@, asked@),
{
    let mut i: usize = 0;
    while i < asked.len()
        invariant
            i <= asked.len(),
            forall|j: int| 0 <= j < i ==> offered@.contains(#[trigger] asked@[j]),
        decreases asked.len() - i,
    {
        let mut found = false;
        let mut k: usize = 0;
        while k < offered.len()
            invariant
                k <= offered.len(),
                i < asked.len(),
                found ==> offered@.contains(asked@[i as int]),
                !found ==> forall|j: int| 0 <= j < k ==> offered@[j] != asked@[i as int],
            decreases offered.len() - k,
        {
            if offered[k] == asked[i] {
                found = true;
            }
            k = k + 1;
        }
        if !found {
            assert(!offered@.contains(asked@[i as int]));
            return false;
        }
        i = i + 1;
    }
    true
}

/// Before the capabilities have been asked for, the client can do nothing.
pub proof fn lemma_cannot_before_discovery(ask: Capability)
    ensures
        !can_spec(None, ask),
{
}

/// Compressions are asked for as a set: asking for fewer of them (or for the
/// same ones in another order, or repeated) never turns a yes into a no.
pub proof fn lemma_can_fewer_compressions(
    caps: Seq<Capability>,
    asked: Vec<Compression>,
    fewer: Vec<Compression>,
)
    requires
        forall|i: int| 0 <= i < fewer@.len() ==> asked@.contains(#[trigger] fewer@[i]),
        can_spec(Some(caps), Capability::XFEATURE_COMPRESS(asked)),
    ensures
        can_spec(Some(caps), Capability::XFEATURE_COMPRESS(fewer)),
{
    let offered = first_offered(caps)->0;
    assert forall|i: int| 0 <= i < fewer@.len() implies offered.contains(#[trigger] fewer@[i]) by {
        let j = choose|j: int| 0 <= j < asked@.len() && asked@[j] == fewer@[i];
        assert(offered.contains(asked@[j]));
    }
}

/// A list whose first `XFEATURE-COMPRESS` line offers a compression lets the
/// client ask for that compression.
pub proof fn lemma_can_offered_compression(caps: Seq<Capability>, c: Compression, asked: Vec<Compression>)
    requires
        first_offered(caps) matches Some(offered) && offered.contains(c),
        asked@ == seq![c],
    ensures
        can_spec(Some(caps), Capability::XFEATURE_COMPRESS(asked)),
{
}

/// A capability that stands anywhere in the list, the first place included,
/// is one the server can do.
pub proof fn lemma_can_finds_listed(caps: Seq<Capability>, wanted: String, i: int)
    requires
        0 <= i < caps.len(),
        caps[i] matches Capability::Other(text) && text@ == wanted@,
    ensures
        can_spec(Some(caps), Capability::Other(wanted)),
{
    assert(same_capability(caps[i], Capability::Other(wanted)));
}

/// A capability that stands nowhere in the list is one the server cannot do.
pub proof fn lemma_can_only_listed(caps: Seq<Capability>, wanted: String)
    requires
        can_spec(Some(caps), Capability::Other(wanted)),
    ensures
        exists|i: int|
            0 <= i < caps.len() && (#[trigger] caps[i] matches Capability::Other(text) && text@
                == wanted@),
{
    let i = choose|i: int|
        0 <= i < caps.len() && #[trigger] same_capability(caps[i], Capability::Other(wanted));
    assert(caps[i] matches Capability::Other(text) && text@ == wanted@);
}

/// The compressions of the first `XFEATURE-COMPRESS` capability are the ones offered.
proof fn lemma_first_offered_at(caps: Seq<Capability>, i: int)
    requires
        0 <= i < caps.len(),
        caps[i] is XFEATURE_COMPRESS,
        forall|j: int| 0 <= j < i ==> !(#[trigger] caps[j] is XFEATURE_COMPRESS),
    ensures
        first_offered(caps) == Some(caps[i]->XFEATURE_COMPRESS_0@),
    decreases i,
{
    if i > 0 {
        let rest = caps.drop_first();
        assert(!(caps[0] is XFEATURE_COMPRESS));
        assert forall|j: int| 0 <= j < i - 1 implies !(#[trigger] rest[j] is XFEATURE_COMPRESS) by {
            assert(rest[j] == caps[j + 1]);
        }
        lemma_first_offered_at(rest, i - 1);
    }
}

/// A list with no `XFEATURE-COMPRESS` capability offers no compression.
proof fn lemma_first_offered_none(caps: Seq<Capability>)
    requires
        forall|j: int| 0 <= j < caps.len() ==> !(#[trigger] caps[j] is XFEATURE_COMPRESS),
    ensures
        first_offered(caps) is None,
    decreases caps.len(),
{
    if caps.len() > 0 {
        let rest = caps.drop_first();
        assert(!(caps[0] is XFEATURE_COMPRESS));
        assert forall|j: int| 0 <= j < rest.len() implies !(#[trigger] rest[j] is XFEATURE_COMPRESS) by {
            assert(rest[j] == caps[j + 1]);
        }
        lemma_first_offered_none(rest);
    }
}

/// Compressions are asked of the first `XFEATURE-COMPRESS` capability of the
/// list, and of it alone: the answer is yes exactly when each compression asked
/// for is among those it names.
pub proof fn lemma_can_compressions(caps: Seq<Capability>, asked: Vec<Compression>, i: int)
    requires
        0 <= i < caps.len(),
        caps[i] is XFEATURE_COMPRESS,
        forall|j: int| 0 <= j < i ==> !(#[trigger] caps[j] is XFEATURE_COMPRESS),
    ensures
        can_spec(Some(caps), Capability::XFEATURE_COMPRESS(asked)) <==> (forall|k: int|
            0 <= k < asked@.len() ==> caps[i]->XFEATURE_COMPRESS_0@.contains(#[trigger] asked@[k])),
{
    lemma_first_offered_at(caps, i);
}

/// Without an `XFEATURE-COMPRESS` capability in the list, no compression can be asked for.
pub proof fn lemma_cannot_compress_unoffered(caps: Seq<Capability>, asked: Vec<Compression>)
    requires
        forall|j: int| 0 <= j < caps.len() ==> !(#[trigger] caps[j] is XFEATURE_COMPRESS),
    ensures
        !can_spec(Some(caps), Capability::XFEATURE_COMPRESS(asked)),
{
    lemma_first_offered_none(caps);
}

/// A line that does not start with the word `XFEATURE-COMPRESS` is kept whole,
/// whatever words follow its first.
pub proof fn lemma_other_line_kept_whole(line: Seq<char>, cap: Capability)
    requires
        line != "XFEATURE-COMPRESS"@,
        !("XFEATURE-COMPRESS"@ + seq![' ']).is_prefix_of(line),
        capability_of_line(line, cap),
    ensures
        cap matches Capability::Other(text) && text@ == line,
{
    lemma_first_piece(line, ' ');
    lemma_split_nonempty(line, ' ');
    let words = split_on(line, ' ');
    let w = "XFEATURE-COMPRESS"@;
    if words[0] == w {
        if words.len() > 1 {
            assert(w =~= line.subrange(0, w.len() as int));
            assert forall|k: int| 0 <= k < w.len() + 1 implies (w + seq![' '])[k] == line[k] by {
                if k < w.len() {
                    assert(line.subrange(0, w.len() as int)[k] == line[k]);
                }
            }
            assert((w + seq![' ']) =~= line.subrange(0, w.len() as int + 1));
            assert((w + seq![' ']).is_prefix_of(line));
        } else {
            assert(line == w);
        }
    }
}

/// The word that names a compression on an `XFEATURE-COMPRESS` line.
pub open spec fn compression_name(c: Compression) -> Seq<char> {
    match c {
        Compression::GZIP => "GZIP"@,
        Compression::DEFLATE => "DEFLATE"@,
        Compression::TERMINATOR => "TERMINATOR"@,
    }
}

proof fn lemma_compression_of_name(w: Seq<char>, c: Compression)
    ensures
        compression_of(w) == Some(c) <==> w == compression_name(c),
{
    reveal_strlit("GZIP");
    reveal_strlit("DEFLATE");
    reveal_strlit("TERMINATOR");
    assert("GZIP"@.len() == 4);
    assert("DEFLATE"@.len() == 7);
    assert("TERMINATOR"@.len() == 10);
}

/// The compressions read from words are those that some word names.
proof fn lemma_compressions_of_contains(words: Seq<Seq<char>>, c: Compression)
    ensures
        compressions_of(words).contains(c) <==> words.contains(compression_name(c)),
    decreases words.len(),
{
    if words.len() > 0 {
        let init = words.drop_last();
        lemma_compressions_of_contains(init, c);
        lemma_compression_of_name(words.last(), c);
        let ci = compressions_of(init);
        if words.contains(compression_name(c)) {
            let k = choose|k: int| 0 <= k < words.len() && words[k] == compression_name(c);
            if k < words.len() - 1 {
                assert(init[k] == words[k]);
            }
        }
        if init.contains(compression_name(c)) {
            let k = choose|k: int| 0 <= k < init.len() && init[k] == compression_name(c);
            assert(words[k] == init[k]);
        }
        match compression_of(words.last()) {
            Some(d) => {
                lemma_compression_of_name(words.last(), d);
                if ci.push(d).contains(c) {
                    let k = choose|k: int| 0 <= k < ci.push(d).len() && ci.push(d)[k] == c;
                    if k < ci.len() {
                        assert(ci[k] == c);
                    }
                }
                if ci.contains(c) {
                    let k = choose|k: int| 0 <= k < ci.len() && ci[k] == c;
                    assert(ci.push(d)[k] == c);
                }
                if d == c {
                    assert(ci.push(d)[ci.len() as int] == c);
                }
            },
            None => {},
        }
    }
}

/// An `XFEATURE-COMPRESS` line offers exactly the compressions that the words
/// after its first name: no more, no fewer.
pub proof fn lemma_compress_line_offers_named(rest: Seq<char>, cap: Capability, c: Compression)
    requires
        capability_of_line("XFEATURE-COMPRESS"@ + seq![' '] + rest, cap),
    ensures
        cap matches Capability::XFEATURE_COMPRESS(offered) && (offered@.contains(c)
            <==> split_on(rest, ' ').contains(compression_name(c))),
{
    let w = "XFEATURE-COMPRESS"@;
    reveal_strlit("XFEATURE-COMPRESS");
    assert(!w.contains(' '));
    lemma_split_concat(w, rest, ' ');
    lemma_split_single(w, ' ');
    let words = split_on(w + seq![' '] + rest, ' ');
    assert(words =~= seq![w] + split_on(rest, ' '));
    assert(words[0] == w);
    assert(words.drop_first() =~= split_on(rest, ' '));
    lemma_compressions_of_contains(split_on(rest, ' '), c);
}

/// A compressed list is read as the text it inflates to when inflated into
/// 8 KiB (8 * 1024 bytes): decoding it compressed gives exactly what decoding
/// that text uncompressed gives.
pub proof fn lemma_compressed_list_reads_as_inflated(body: Seq<u8>, text: Seq<u8>)
    requires
        zlib_inflate(body, 8 * 1024) == Some(text),
    ensures
        capability_bytes(body, true) == capability_bytes(text, false),
{
}

/// A compressed list that does not inflate into 8 KiB (8 * 1024 bytes) is refused
/// as such, whatever it holds.
pub proof fn lemma_compressed_list_that_fails(body: Seq<u8>)
    requires
        zlib_inflate(body, 8 * 1024) is None,
    ensures
        capability_bytes(body, true) is None,
{
}

} // verus!
