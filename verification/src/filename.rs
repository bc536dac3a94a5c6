//! File names that an archive can carry to every platform.

use crate::paths::{FilePath, PathModel};
use crate::report::{ErrorKind, Failure, Level, Notice, PackageError, Remark};
use crate::text::{has_char, lowered, prefix_until, same_ignoring_case, until};
use vstd::prelude::*;

verus! {

/// The characters that no packaged file name may hold, in the order in which
/// a name is searched for them.
pub open spec fn forbidden() -> Seq<char> {
    seq!['/', '\\', '<', '>', ':', '"', '|', '?', '*']
}

/// The first character of `forbidden()` from index `k` on that occurs in
/// `name`.
pub open spec fn first_forbidden(name: Seq<char>, k: int) -> Option<char>
    decreases forbidden().len() - k,
{
    if k < 0 || k >= forbidden().len() {
        None
    } else if name.contains(forbidden()[k]) {
        Some(forbidden()[k])
    } else {
        first_forbidden(name, k + 1)
    }
}

/// A name is free of forbidden characters exactly when none of its
/// characters is one.
pub proof fn lemma_first_forbidden(name: Seq<char>, k: int)
    requires
        0 <= k <= forbidden().len(),
    ensures
        first_forbidden(name, k) is None <==> forall|j: int|
            k <= j < forbidden().len() ==> !name.contains(#[trigger] forbidden()[j]),
        first_forbidden(name, k) matches Some(c) ==> name.contains(c) && forbidden().contains(c),
    decreases forbidden().len() - k,
{
    if k < forbidden().len() {
        lemma_first_forbidden(name, k + 1);
    }
}

fn forbidden_at(k: usize) -> (c: char)
    requires
        k < 9,
    ensures
        c == forbidden()[k as int],
{
    if k == 0 {
        '/'
    } else if k == 1 {
        '\\'
    } else if k == 2 {
        '<'
    } else if k == 3 {
        '>'
    } else if k == 4 {
        ':'
    } else if k == 5 {
        '"'
    } else if k == 6 {
        '|'
    } else if k == 7 {
        '?'
    } else {
        '*'
    }
}

/// The device names that one platform keeps for itself, whatever the letter
/// case and whatever follows the first dot.
pub open spec fn is_device_name(stem: Seq<char>) -> bool {
    let s = lowered(stem);
    ||| s == lowered("con"@)
    ||| s == lowered("prn"@)
    ||| s == lowered("aux"@)
    ||| s == lowered("nul"@)
    ||| s == lowered("com1"@)
    ||| s == lowered("com2"@)
    ||| s == lowered("com3"@)
    ||| s == lowered("com4"@)
    ||| s == lowered("com5"@)
    ||| s == lowered("com6"@)
    ||| s == lowered("com7"@)
    ||| s == lowered("com8"@)
    ||| s == lowered("com9"@)
    ||| s == lowered("lpt1"@)
    ||| s == lowered("lpt2"@)
    ||| s == lowered("lpt3"@)
    ||| s == lowered("lpt4"@)
    ||| s == lowered("lpt5"@)
    ||| s == lowered("lpt6"@)
    ||| s == lowered("lpt7"@)
    ||| s == lowered("lpt8"@)
    ||| s == lowered("lpt9"@)
}

/// Whether the file name `name` is reserved on some platform.
pub open spec fn is_reserved_name(name: Seq<char>) -> bool {
    is_device_name(until(name, '.'))
}

/// Whether the file name `name` is reserved on some platform.
pub fn reserved_name(name: &str) -> (r: bool)
    ensures
        r == is_reserved_name(name@),
{
    let stem: &str = prefix_until(name, '.');
    same_ignoring_case(stem, "con") || same_ignoring_case(stem, "prn") || same_ignoring_case(
        stem,
        "aux",
    ) || same_ignoring_case(stem, "nul") || same_ignoring_case(stem, "com1")
        || same_ignoring_case(stem, "com2") || same_ignoring_case(stem, "com3")
        || same_ignoring_case(stem, "com4") || same_ignoring_case(stem, "com5")
        || same_ignoring_case(stem, "com6") || same_ignoring_case(stem, "com7")
        || same_ignoring_case(stem, "com8") || same_ignoring_case(stem, "com9")
        || same_ignoring_case(stem, "lpt1") || same_ignoring_case(stem, "lpt2")
        || same_ignoring_case(stem, "lpt3") || same_ignoring_case(stem, "lpt4")
        || same_ignoring_case(stem, "lpt5") || same_ignoring_case(stem, "lpt6")
        || same_ignoring_case(stem, "lpt7") || same_ignoring_case(stem, "lpt8")
        || same_ignoring_case(stem, "lpt9")
}

/// The text of the failure for a name that holds the forbidden `c`.
pub open spec fn special_character_text(c: char, path: PathModel) -> Seq<char> {
    "cannot package a filename with a special character `"@ + seq![c] + "`: "@ + path.shown()
}

/// The text of the warning for a reserved name.
pub open spec fn reserved_name_text(path: PathModel) -> Seq<char> {
    "file "@ + path.shown()
        + " is a reserved Windows filename, it will not work on Windows platforms"@
}

/// What the check of `path` comes to: a failure where its file name holds a
/// forbidden character; else a warning where that name is reserved; else
/// nothing. A path without a file name passes.
pub open spec fn filename_verdict(path: PathModel) -> Result<Option<Remark>, Failure> {
    match path.file_name() {
        None => Ok(None),
        Some(name) => match first_forbidden(name, 0) {
            Some(c) => Err(
                Failure {
                    kind: ErrorKind::SpecialCharacter,
                    message: special_character_text(c, path),
                },
            ),
            None => if is_reserved_name(name) {
                Ok(Some(Remark { level: Level::Warning, message: reserved_name_text(path) }))
            } else {
                Ok(None)
            },
        },
    }
}

/// The view of what a check returns.
pub open spec fn verdict_view(r: Result<Option<Notice>, PackageError>) -> Result<
    Option<Remark>,
    Failure,
> {
    match r {
        Ok(Some(n)) => Ok(Some(n@)),
        Ok(None) => Ok(None),
        Err(e) => Err(e@),
    }
}

/// Checks that the file name of `file` can be unpacked everywhere.
pub fn check_filename(file: &FilePath) -> (r: Result<Option<Notice>, PackageError>)
    ensures
        verdict_view(r) == filename_verdict(file@),
{
    let name: &String = match file.file_name() {
        Some(name) => name,
        None => {
            return Ok(None);
        },
    };
    let mut k: usize = 0;
    while k < 9
        invariant
            k <= 9,
            file@.file_name() == Some(name@),
            first_forbidden(name@, 0) == first_forbidden(name@, k as int),
        decreases 9 - k,
    {
        let c: char = forbidden_at(k);
        if has_char(name.as_str(), c) {
            let mut message: String = String::from_str(
                "cannot package a filename with a special character `",
            );
            message.push(c);
            message.append("`: ");
            message.append(file.display().as_str());
            proof {
                assert(message@ =~= special_character_text(c, file@));
            }
            return Err(PackageError::new(ErrorKind::SpecialCharacter, message));
        }
        k = k + 1;
    }
    if reserved_name(name.as_str()) {
        let mut message: String = String::from_str("file ");
        message.append(file.display().as_str());
        message.append(" is a reserved Windows filename, it will not work on Windows platforms");
        Ok(Some(Notice::new(Level::Warning, message)))
    } else {
        Ok(None)
    }
}

} // verus!
