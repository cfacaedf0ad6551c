//! The metadata extractor: pulls the three labeled fields of one candidate
//! directory out of its declaration files. The filesystem layer hands in
//! the raw bytes of `install.txt` (when present) and of
//! `ghost/master/descript.txt` (when present) together with the fallback
//! directory name; everything from decoding to field extraction is pure.

use vstd::prelude::*;

use crate::ast::{GhostData, GhostDataView};
use crate::decode::{spec_decode, DecodeError};
use crate::text::{has_prefix, lines_of, trim};

verus! {

/// Why one candidate directory yields no record.
#[derive(PartialEq, Eq, Structural, Clone, Copy, Debug)]
pub enum ExtractError {
    /// A declaration file's resolved encoding cannot represent its bytes.
    Decode,
    /// A present declaration file lacks a required declaration.
    InvalidDeclaration,
    /// The required descriptor file is absent.
    MissingDescriptor,
}

/// The value a line declares for the given label: the line is trimmed, must
/// then start with the literal label, and the value is everything after the
/// label with no further trimming.
pub open spec fn labeled_value(line: Seq<char>, label: Seq<char>) -> Option<Seq<char>> {
    let t = trim(line);
    if has_prefix(t, label) {
        Some(t.skip(label.len() as int))
    } else {
        None
    }
}

/// The value of the first line that declares the given label; later
/// duplicate declarations are ignored.
pub open spec fn find_labeled_value(lines: Seq<Seq<char>>, label: Seq<char>) -> Option<Seq<char>>
    decreases lines.len(),
{
    if lines.len() == 0 {
        None
    } else {
        match labeled_value(lines[0], label) {
            Some(v) => Some(v),
            None => find_labeled_value(lines.drop_first(), label),
        }
    }
}

/// The `directory,` label of `install.txt`.
pub open spec fn directory_label() -> Seq<char> {
    seq!['d', 'i', 'r', 'e', 'c', 't', 'o', 'r', 'y', ',']
}

/// The `sakura.name,` label of `descript.txt`.
pub open spec fn sakura_label() -> Seq<char> {
    seq!['s', 'a', 'k', 'u', 'r', 'a', '.', 'n', 'a', 'm', 'e', ',']
}

/// The `kero.name,` label of `descript.txt`.
pub open spec fn kero_label() -> Seq<char> {
    seq!['k', 'e', 'r', 'o', '.', 'n', 'a', 'm', 'e', ',']
}

/// The view of an optional raw file buffer.
pub open spec fn opt_bytes(o: Option<Vec<u8>>) -> Option<Seq<u8>> {
    match o {
        Some(b) => Some(b@),
        None => None,
    }
}

/// What the directory field resolves to: a present `install.txt` must
/// decode and declare it (present but invalid is fatal); an absent one
/// falls back to the supplied terminal path component.
pub open spec fn spec_directory(fallback: Seq<char>, install: Option<Seq<u8>>) -> Result<
    Seq<char>,
    ExtractError,
> {
    match install {
        None => Ok(fallback),
        Some(b) => match spec_decode(b) {
            None => Err(ExtractError::Decode),
            Some(t) => match find_labeled_value(lines_of(t), directory_label()) {
                Some(v) => Ok(v),
                None => Err(ExtractError::InvalidDeclaration),
            },
        },
    }
}

/// What the two name fields resolve to: the descriptor must be present and
/// decode, `sakura.name,` is required, and a missing `kero.name,`
/// normalizes to the empty string.
pub open spec fn spec_names(descript: Option<Seq<u8>>) -> Result<
    (Seq<char>, Seq<char>),
    ExtractError,
> {
    match descript {
        None => Err(ExtractError::MissingDescriptor),
        Some(b) => match spec_decode(b) {
            None => Err(ExtractError::Decode),
            Some(t) => match find_labeled_value(lines_of(t), sakura_label()) {
                None => Err(ExtractError::InvalidDeclaration),
                Some(s) => Ok(
                    (
                        s,
                        match find_labeled_value(lines_of(t), kero_label()) {
                            Some(k) => k,
                            None => Seq::empty(),
                        },
                    ),
                ),
            },
        },
    }
}

/// The record one candidate directory yields, or the first failure: the
/// directory field is resolved first, then the descriptor names.
pub open spec fn spec_extract(
    fallback: Seq<char>,
    install: Option<Seq<u8>>,
    descript: Option<Seq<u8>>,
) -> Result<GhostDataView, ExtractError> {
    match spec_directory(fallback, install) {
        Err(e) => Err(e),
        Ok(dir) => match spec_names(descript) {
            Err(e) => Err(e),
            Ok(names) => Ok(
                GhostDataView { directory: dir, sakura_name: names.0, kero_name: names.1 },
            ),
        },
    }
}

fn labeled_value_chars(line: &Vec<char>, label: &Vec<char>) -> (r: Option<Vec<char>>)
    ensures
        r matches Some(v) ==> labeled_value(line@, label@) == Some(v@),
        r is None ==> labeled_value(line@, label@) is None,
{
    let t = crate::text::trim_chars(line);
    if crate::text::starts_with(&t, label) {
        Some(crate::text::skip_chars(&t, label.len()))
    } else {
        None
    }
}

/// The value a single line declares for a label, if any: the line is
/// trimmed and must start with the label; the value is what follows.
pub fn get_labeled_value_from_line(line: &str, label: &str) -> (r: Option<String>)
    ensures
        r matches Some(v) ==> labeled_value(line@, label@) == Some(v@),
        r is None ==> labeled_value(line@, label@) is None,
{
    let lc = crate::text::string_to_chars(line);
    let lb = crate::text::string_to_chars(label);
    match labeled_value_chars(&lc, &lb) {
        Some(v) => Some(crate::text::chars_to_string(&v)),
        None => None,
    }
}

fn find_labeled_value_chars(lines: &Vec<Vec<char>>, label: &Vec<char>) -> (r: Option<Vec<char>>)
    ensures
        r matches Some(v) ==> find_labeled_value(lines.deep_view(), label@) == Some(v@),
        r is None ==> find_labeled_value(lines.deep_view(), label@) is None,
{
    let ghost lv = lines.deep_view();
    let mut i: usize = 0;
    proof {
        assert(lv.skip(0) =~= lv);
    }
    while i < lines.len()
        invariant
            0 <= i <= lines.len(),
            lv == lines.deep_view(),
            find_labeled_value(lv, label@) == find_labeled_value(lv.skip(i as int), label@),
        decreases lines.len() - i,
    {
        proof {
            assert(lv.skip(i as int)[0] == lv[i as int]);
            assert(lv[i as int] == lines[i as int].deep_view());
            assert(lines[i as int].deep_view() =~= lines[i as int]@);
        }
        match labeled_value_chars(&lines[i], label) {
            Some(v) => {
                proof {
                    assert(find_labeled_value(lv.skip(i as int), label@) == Some(v@));
                }
                return Some(v);
            },
            None => {},
        }
        proof {
            assert(lv.skip(i as int).drop_first() =~= lv.skip(i as int + 1));
            assert(find_labeled_value(lv.skip(i as int), label@) == find_labeled_value(
                lv.skip(i as int + 1),
                label@,
            ));
        }
        i = i + 1;
    }
    proof {
        assert(lv.skip(i as int) =~= Seq::<Seq<char>>::empty());
    }
    None
}

/// Resolves the directory field from the raw bytes of a present
/// `install.txt`: the file must decode and must declare `directory,`.
pub fn directory_from_install(bytes: &Vec<u8>) -> (r: Result<String, ExtractError>)
    requires
        bytes@.len() * 4 < usize::MAX as int,
    ensures
        r matches Ok(v) ==> spec_directory(Seq::empty(), Some(bytes@)) == Ok::<
            Seq<char>,
            ExtractError,
        >(v@),
        r matches Err(e) ==> spec_directory(Seq::empty(), Some(bytes@)) == Err::<
            Seq<char>,
            ExtractError,
        >(e),
{
    let text = match crate::decode::decode_text(bytes) {
        Ok(t) => t,
        Err(_) => {
            return Err(ExtractError::Decode);
        },
    };
    let lines = crate::text::split_lines(&text);
    let label: Vec<char> = vec!['d', 'i', 'r', 'e', 'c', 't', 'o', 'r', 'y', ','];
    proof {
        assert(label@ =~= directory_label());
    }
    match find_labeled_value_chars(&lines, &label) {
        Some(v) => Ok(crate::text::chars_to_string(&v)),
        None => Err(ExtractError::InvalidDeclaration),
    }
}

/// Resolves the two character names from the raw bytes of a present
/// `ghost/master/descript.txt`: the file must decode, `sakura.name,` is
/// required, and a missing `kero.name,` yields the empty string.
pub fn names_from_descript(bytes: &Vec<u8>) -> (r: Result<(String, String), ExtractError>)
    requires
        bytes@.len() * 4 < usize::MAX as int,
    ensures
        r matches Ok(names) ==> spec_names(Some(bytes@)) == Ok::<
            (Seq<char>, Seq<char>),
            ExtractError,
        >((names.0@, names.1@)),
        r matches Err(e) ==> spec_names(Some(bytes@)) == Err::<(Seq<char>, Seq<char>), ExtractError>(
            e,
        ),
{
    let text = match crate::decode::decode_text(bytes) {
        Ok(t) => t,
        Err(_) => {
            return Err(ExtractError::Decode);
        },
    };
    let lines = crate::text::split_lines(&text);
    let sakura: Vec<char> = vec!['s', 'a', 'k', 'u', 'r', 'a', '.', 'n', 'a', 'm', 'e', ','];
    let kero: Vec<char> = vec!['k', 'e', 'r', 'o', '.', 'n', 'a', 'm', 'e', ','];
    proof {
        assert(sakura@ =~= sakura_label());
        assert(kero@ =~= kero_label());
    }
    let sakura_name = match find_labeled_value_chars(&lines, &sakura) {
        Some(v) => crate::text::chars_to_string(&v),
        None => {
            return Err(ExtractError::InvalidDeclaration);
        },
    };
    let kero_name = match find_labeled_value_chars(&lines, &kero) {
        Some(v) => crate::text::chars_to_string(&v),
        None => {
            let empty: Vec<char> = Vec::new();
            crate::text::chars_to_string(&empty)
        },
    };
    Ok((sakura_name, kero_name))
}

/// Builds the record of one candidate directory from the fallback name (the
/// terminal path component) and the raw bytes of its declaration files, or
/// reports the first failure. A present but invalid `install.txt` is fatal
/// for the candidate; an entirely absent one is not.
pub fn extract_record(
    fallback_directory: String,
    install_txt: Option<Vec<u8>>,
    descript_txt: Option<Vec<u8>>,
) -> (r: Result<GhostData, ExtractError>)
    requires
        install_txt matches Some(b) ==> b@.len() * 4 < usize::MAX as int,
        descript_txt matches Some(b) ==> b@.len() * 4 < usize::MAX as int,
    ensures
        r matches Ok(g) ==> spec_extract(
            fallback_directory@,
            opt_bytes(install_txt),
            opt_bytes(descript_txt),
        ) == Ok::<GhostDataView, ExtractError>(g@),
        r matches Err(e) ==> spec_extract(
            fallback_directory@,
            opt_bytes(install_txt),
            opt_bytes(descript_txt),
        ) == Err::<GhostDataView, ExtractError>(e),
{
    let directory = match &install_txt {
        None => fallback_directory,
        Some(b) => match directory_from_install(b) {
            Ok(v) => v,
            Err(e) => {
                return Err(e);
            },
        },
    };
    let names = match &descript_txt {
        None => {
            return Err(ExtractError::MissingDescriptor);
        },
        Some(b) => match names_from_descript(b) {
            Ok(names) => names,
            Err(e) => {
                return Err(e);
            },
        },
    };
    Ok(GhostData::new(directory, names.0, names.1))
}

} // verus!
