//! The text decoder for legacy declaration files: sniffs an in-file
//! `charset,<name>` declaration out of a provisional lossy UTF-8 reading of
//! the raw bytes, resolves it to one of four supported encodings (defaulting
//! to the Shift-JIS family), and then decodes the full byte buffer strictly
//! with the resolved encoding, failing on any malformed sequence.

use vstd::prelude::*;

verus! {

/// The four supported legacy text encodings; unrecognized or absent
/// declarations fall back to the Shift-JIS family.
#[derive(PartialEq, Eq, Structural, Clone, Copy, Debug)]
pub enum Charset {
    ShiftJis,
    Iso2022Jp,
    EucJp,
    Utf8,
}

/// The resolved encoding cannot losslessly represent the byte stream.
#[derive(PartialEq, Eq, Structural, Clone, Copy, Debug)]
pub struct DecodeError;

/// What `String::from_utf8_lossy` returns for the given bytes: a pure
/// function of the bytes alone.
pub uninterp spec fn lossy_utf8(b: Seq<u8>) -> Seq<char>;

/// What the Shift-JIS whole-buffer decode returns: the decoded text, or
/// nothing when a malformed sequence had to be replaced.
pub uninterp spec fn shift_jis_decoded(b: Seq<u8>) -> Option<Seq<char>>;

/// What the ISO-2022-JP whole-buffer decode returns.
pub uninterp spec fn iso_2022_jp_decoded(b: Seq<u8>) -> Option<Seq<char>>;

/// What the EUC-JP whole-buffer decode returns.
pub uninterp spec fn euc_jp_decoded(b: Seq<u8>) -> Option<Seq<char>>;

/// What the UTF-8 whole-buffer decode returns.
pub uninterp spec fn utf8_decoded(b: Seq<u8>) -> Option<Seq<char>>;

/// Relies on String::from_utf8_lossy: a deterministic function of the
/// bytes; the result is only scanned for a charset declaration.
#[verifier::external_body]
fn decode_lossy_utf8(bytes: &Vec<u8>) -> (r: Vec<char>)
    ensures
        r@ == lossy_utf8(bytes@),
{
    String::from_utf8_lossy(bytes).chars().collect()
}

/// Relies on encoding_rs::SHIFT_JIS.decode: whole-buffer decode with BOM
/// sniffing; its third result reports whether any malformed sequence was
/// replaced, which this library treats as failure. The length bound keeps
/// the decoder's output-size computation from overflowing.
#[verifier::external_body]
fn decode_shift_jis(bytes: &Vec<u8>) -> (r: Option<Vec<char>>)
    requires
        bytes@.len() * 4 < usize::MAX as int,
    ensures
        r matches Some(t) ==> shift_jis_decoded(bytes@) == Some(t@),
        r is None ==> shift_jis_decoded(bytes@) is None,
{
    let (text, _, had_errors) = encoding_rs::SHIFT_JIS.decode(bytes);
    if had_errors {
        None
    } else {
        Some(text.chars().collect())
    }
}

/// Relies on encoding_rs::ISO_2022_JP.decode, as `decode_shift_jis` does
/// on its encoding.
#[verifier::external_body]
fn decode_iso_2022_jp(bytes: &Vec<u8>) -> (r: Option<Vec<char>>)
    requires
        bytes@.len() * 4 < usize::MAX as int,
    ensures
        r matches Some(t) ==> iso_2022_jp_decoded(bytes@) == Some(t@),
        r is None ==> iso_2022_jp_decoded(bytes@) is None,
{
    let (text, _, had_errors) = encoding_rs::ISO_2022_JP.decode(bytes);
    if had_errors {
        None
    } else {
        Some(text.chars().collect())
    }
}

/// Relies on encoding_rs::EUC_JP.decode, as `decode_shift_jis` does on its
/// encoding.
#[verifier::external_body]
fn decode_euc_jp(bytes: &Vec<u8>) -> (r: Option<Vec<char>>)
    requires
        bytes@.len() * 4 < usize::MAX as int,
    ensures
        r matches Some(t) ==> euc_jp_decoded(bytes@) == Some(t@),
        r is None ==> euc_jp_decoded(bytes@) is None,
{
    let (text, _, had_errors) = encoding_rs::EUC_JP.decode(bytes);
    if had_errors {
        None
    } else {
        Some(text.chars().collect())
    }
}

/// Relies on encoding_rs::UTF_8.decode, as `decode_shift_jis` does on its
/// encoding.
#[verifier::external_body]
fn decode_utf8(bytes: &Vec<u8>) -> (r: Option<Vec<char>>)
    requires
        bytes@.len() * 4 < usize::MAX as int,
    ensures
        r matches Some(t) ==> utf8_decoded(bytes@) == Some(t@),
        r is None ==> utf8_decoded(bytes@) is None,
{
    let (text, _, had_errors) = encoding_rs::UTF_8.decode(bytes);
    if had_errors {
        None
    } else {
        Some(text.chars().collect())
    }
}

/// The `charset,` label that introduces an encoding declaration.
pub open spec fn charset_label() -> Seq<char> {
    seq!['c', 'h', 'a', 'r', 's', 'e', 't', ',']
}

/// The encoding a declared (already lowercased and trimmed) name resolves
/// to. The Shift-JIS names resolve to the family that is also the fallback
/// for every unrecognized name.
pub open spec fn charset_from_name(name: Seq<char>) -> Charset {
    if name == seq!['i', 's', 'o', '-', '2', '0', '2', '2', '-', 'j', 'p'] {
        Charset::Iso2022Jp
    } else if name == seq!['e', 'u', 'c', '-', 'j', 'p'] {
        Charset::EucJp
    } else if name == seq!['u', 't', 'f', '-', '8'] {
        Charset::Utf8
    } else {
        Charset::ShiftJis
    }
}

/// The encoding declared by the first `charset,` line, if any; the label is
/// matched on the ASCII-lowercased line, and the declared name is trimmed
/// before it is resolved. Without any declaration the Shift-JIS family is
/// assumed.
pub open spec fn charset_of_lines(lines: Seq<Seq<char>>) -> Charset
    decreases lines.len(),
{
    if lines.len() == 0 {
        Charset::ShiftJis
    } else {
        let low = crate::text::to_lower(lines[0]);
        if crate::text::has_prefix(low, charset_label()) {
            charset_from_name(crate::text::trim(low.skip(charset_label().len() as int)))
        } else {
            charset_of_lines(lines.drop_first())
        }
    }
}

/// The encoding resolved for a text: sniffed from its lines.
pub open spec fn charset_of(text: Seq<char>) -> Charset {
    charset_of_lines(crate::text::lines_of(text))
}

/// What decoding a raw declaration-file buffer yields: the charset sniffed
/// from the lossy UTF-8 reading picks the decoder, and the full buffer is
/// decoded strictly with it.
pub open spec fn spec_decode(b: Seq<u8>) -> Option<Seq<char>> {
    match charset_of(lossy_utf8(b)) {
        Charset::ShiftJis => shift_jis_decoded(b),
        Charset::Iso2022Jp => iso_2022_jp_decoded(b),
        Charset::EucJp => euc_jp_decoded(b),
        Charset::Utf8 => utf8_decoded(b),
    }
}

fn charset_from_name_chars(name: &Vec<char>) -> (r: Charset)
    ensures
        r == charset_from_name(name@),
{
    let iso: Vec<char> = vec!['i', 's', 'o', '-', '2', '0', '2', '2', '-', 'j', 'p'];
    let euc: Vec<char> = vec!['e', 'u', 'c', '-', 'j', 'p'];
    let utf: Vec<char> = vec!['u', 't', 'f', '-', '8'];
    if crate::text::chars_eq(name, &iso) {
        Charset::Iso2022Jp
    } else if crate::text::chars_eq(name, &euc) {
        Charset::EucJp
    } else if crate::text::chars_eq(name, &utf) {
        Charset::Utf8
    } else {
        Charset::ShiftJis
    }
}

/// Scans the lines of the provisional text for the first `charset,`
/// declaration and resolves the encoding to use.
fn sniff_charset(text: &Vec<char>) -> (r: Charset)
    ensures
        r == charset_of(text@),
{
    let lines = crate::text::split_lines(text);
    let ghost lv = lines.deep_view();
    let label: Vec<char> = vec!['c', 'h', 'a', 'r', 's', 'e', 't', ','];
    proof {
        assert(label@ =~= charset_label());
    }
    let mut i: usize = 0;
    proof {
        assert(lv.skip(0) =~= lv);
    }
    while i < lines.len()
        invariant
            0 <= i <= lines.len(),
            lv == lines.deep_view(),
            lv == crate::text::lines_of(text@),
            label@ == charset_label(),
            charset_of_lines(lv) == charset_of_lines(lv.skip(i as int)),
        decreases lines.len() - i,
    {
        let low = crate::text::to_lower_chars(&lines[i]);
        proof {
            assert(lv.skip(i as int)[0] == lv[i as int]);
            assert(lv[i as int] == lines[i as int].deep_view());
            assert(low@ == crate::text::to_lower(lv.skip(i as int)[0]));
        }
        if crate::text::starts_with(&low, &label) {
            let name = crate::text::skip_chars(&low, 8);
            let trimmed = crate::text::trim_chars(&name);
            let r = charset_from_name_chars(&trimmed);
            proof {
                assert(charset_of_lines(lv.skip(i as int)) == charset_from_name(
                    crate::text::trim(low@.skip(charset_label().len() as int)),
                ));
            }
            return r;
        }
        proof {
            assert(lv.skip(i as int).drop_first() =~= lv.skip(i as int + 1));
            assert(charset_of_lines(lv.skip(i as int)) == charset_of_lines(lv.skip(i as int + 1)));
        }
        i = i + 1;
    }
    proof {
        assert(lv.skip(i as int) =~= Seq::<Seq<char>>::empty());
        assert(charset_of_lines(lv) == Charset::ShiftJis);
    }
    Charset::ShiftJis
}

/// Decodes a raw declaration-file buffer: a provisional lossy UTF-8 pass
/// only to sniff the `charset,` declaration, then a strict decode of the
/// whole buffer with the resolved encoding. Any malformed sequence under
/// the resolved encoding is a failure, never a best-effort result.
pub fn decode_text(bytes: &Vec<u8>) -> (r: Result<Vec<char>, DecodeError>)
    requires
        bytes@.len() * 4 < usize::MAX as int,
    ensures
        r matches Ok(t) ==> spec_decode(bytes@) == Some(t@),
        r is Err ==> spec_decode(bytes@) is None,
{
    let lossy = decode_lossy_utf8(bytes);
    let charset = sniff_charset(&lossy);
    let decoded = match charset {
        Charset::ShiftJis => decode_shift_jis(bytes),
        Charset::Iso2022Jp => decode_iso_2022_jp(bytes),
        Charset::EucJp => decode_euc_jp(bytes),
        Charset::Utf8 => decode_utf8(bytes),
    };
    match decoded {
        Some(t) => Ok(t),
        None => Err(DecodeError),
    }
}

/// Decodes a raw declaration-file buffer to a string, failing when the
/// resolved encoding cannot losslessly represent the bytes.
pub fn decode_setting_text(bytes: &Vec<u8>) -> (r: Result<String, DecodeError>)
    requires
        bytes@.len() * 4 < usize::MAX as int,
    ensures
        r matches Ok(t) ==> spec_decode(bytes@) == Some(t@),
        r is Err ==> spec_decode(bytes@) is None,
{
    match decode_text(bytes) {
        Ok(t) => Ok(crate::text::chars_to_string(&t)),
        Err(e) => Err(e),
    }
}

} // verus!
