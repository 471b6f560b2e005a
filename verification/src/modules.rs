//! Finding the base address of a module of the game process from the entries
//! of a module snapshot (`Module32First` / `Module32Next`).
use vstd::prelude::*;
use vstd::utf8::*;
use crate::cstr::{bytes_before_nul, first_terminator, terminated_prefix};

verus! {

/// One entry of a module snapshot.
pub struct ModuleEntry {
    /// The entry's `szModule` field: the module name, nul-terminated, as bytes.
    pub name: Vec<u8>,
    /// The entry's `modBaseAddr` field.
    pub base_address: u64,
}

/// Why no base address was found.
#[derive(Clone, Copy, Debug, PartialEq, Eq, Structural)]
pub enum ModuleLookupError {
    /// No entry of the snapshot has the wanted name.
    NotListed,
    /// The first entry with the wanted name has a null base address.
    NullBase,
}

/// The text that `String::from_utf8_lossy` makes of `bytes`.
pub uninterp spec fn lossy_utf8(bytes: Seq<u8>) -> Seq<char>;

/// Calls `String::from_utf8_lossy`. Its documentation states that valid UTF-8
/// comes back unchanged; invalid sequences become U+FFFD, which is left to
/// the name `lossy_utf8`.
#[verifier::external_body]
fn decode_lossy(bytes: &[u8]) -> (text: String)
    ensures
        text@ == lossy_utf8(bytes@),
        valid_utf8(bytes@) ==> text@ == decode_utf8(bytes@),
{
    String::from_utf8_lossy(bytes).into_owned()
}

/// The text of a nul-terminated name as `String::from_utf8_lossy` gives it:
/// valid UTF-8 decodes as such, anything else is left to `lossy_utf8`.
pub open spec fn name_text(raw: Seq<u8>) -> Seq<char> {
    let bytes = terminated_prefix(raw, 0u8).unwrap();
    if valid_utf8(bytes) {
        decode_utf8(bytes)
    } else {
        lossy_utf8(bytes)
    }
}

/// The text of the name of `entries[i]`.
pub open spec fn entry_text(entries: Seq<ModuleEntry>, i: int) -> Seq<char> {
    name_text(entries[i].name@)
}

/// The names of `entries` as text.
pub open spec fn entry_names(entries: Seq<ModuleEntry>) -> Seq<Seq<char>> {
    Seq::new(entries.len(), |i: int| entry_text(entries, i))
}

/// The base addresses of `entries`.
pub open spec fn entry_bases(entries: Seq<ModuleEntry>) -> Seq<u64> {
    Seq::new(entries.len(), |i: int| entries[i].base_address)
}

/// For each name, whether it is `wanted`.
pub open spec fn names_matching(names: Seq<Seq<char>>, wanted: Seq<char>) -> Seq<bool> {
    Seq::new(names.len(), |i: int| names[i] == wanted)
}

/// The base address picked from `bases` by the names `names`: that of the
/// first entry named `wanted`, unless it is null.
pub open spec fn module_base_spec(bases: Seq<u64>, names: Seq<Seq<char>>, wanted: Seq<char>) -> Result<u64, ModuleLookupError> {
    let matched = names_matching(names, wanted);
    if exists|i: int| first_terminator(matched, true, i) {
        let i = choose|i: int| first_terminator(matched, true, i);
        if bases[i] == 0 {
            Err(ModuleLookupError::NullBase)
        } else {
            Ok(bases[i])
        }
    } else {
        Err(ModuleLookupError::NotListed)
    }
}

/// Every name the search reads carries its terminator: a name without one
/// comes only after an entry that already matched.
pub open spec fn names_terminated_until_match(entries: Seq<ModuleEntry>, wanted: Seq<char>) -> bool {
    forall|i: int|
        0 <= i < entries.len() && (#[trigger] terminated_prefix(entries[i].name@, 0u8)) is None ==> exists|j: int|
            0 <= j < i && terminated_prefix(entries[j].name@, 0u8) is Some && #[trigger] entry_text(entries, j) == wanted
}

/// How the search ends at an entry whose name decodes to `text`: `None` to go
/// on, else the result.
pub open spec fn judge_spec(text: Seq<char>, base: u64, wanted: Seq<char>) -> Option<Result<u64, ModuleLookupError>> {
    if text == wanted {
        Some(if base == 0 { Err(ModuleLookupError::NullBase) } else { Ok(base) })
    } else {
        None
    }
}

/// Decides, from an entry's decoded name and base address, whether the
/// search ends there and with what.
pub fn judge_entry(decoded: &String, base_address: u64, wanted: &str) -> (res: Option<Result<u64, ModuleLookupError>>)
    ensures
        res == judge_spec(decoded@, base_address, wanted@),
{
    let target = wanted.to_owned();
    if *decoded == target {
        if base_address == 0 {
            Some(Err(ModuleLookupError::NullBase))
        } else {
            Some(Ok(base_address))
        }
    } else {
        None
    }
}

/// Looks at one snapshot entry: its name, up to the terminator and decoded as
/// `String::from_utf8_lossy` does, is compared with `wanted`.
pub fn examine_entry(entry: &ModuleEntry, wanted: &str) -> (res: Option<Result<u64, ModuleLookupError>>)
    requires
        terminated_prefix(entry.name@, 0u8) is Some,
    ensures
        res == judge_spec(name_text(entry.name@), entry.base_address, wanted@),
{
    let prefix = bytes_before_nul(entry.name.as_slice()).unwrap();
    let text = decode_lossy(prefix.as_slice());
    judge_entry(&text, entry.base_address, wanted)
}

/// Looks up the base address of the module named `wanted` among the snapshot
/// entries, reading them in order and stopping at the first match.
pub fn find_module_base(entries: &Vec<ModuleEntry>, wanted: &str) -> (res: Result<u64, ModuleLookupError>)
    requires
        names_terminated_until_match(entries@, wanted@),
    ensures
        res == module_base_spec(entry_bases(entries@), entry_names(entries@), wanted@),
{
    let ghost names = entry_names(entries@);
    let ghost bases = entry_bases(entries@);
    let ghost matched = names_matching(names, wanted@);
    let mut i: usize = 0;
    while i < entries.len()
        invariant
            i <= entries@.len(),
            names_terminated_until_match(entries@, wanted@),
            names == entry_names(entries@),
            bases == entry_bases(entries@),
            matched == names_matching(names, wanted@),
            forall|j: int| 0 <= j < i ==> terminated_prefix(entries@[j].name@, 0u8) is Some,
            forall|j: int| 0 <= j < i ==> #[trigger] entry_text(entries@, j) != wanted@,
        decreases entries@.len() - i,
    {
        proof {
            if terminated_prefix(entries@[i as int].name@, 0u8) is None {
                let j = choose|j: int|
                    0 <= j < i && terminated_prefix(entries@[j].name@, 0u8) is Some && #[trigger] entry_text(entries@, j) == wanted@;
                assert(entry_text(entries@, j) != wanted@);
            }
        }
        let r = examine_entry(&entries[i], wanted);
        if let Some(outcome) = r {
            proof {
                assert(matched[i as int] == (entry_text(entries@, i as int) == wanted@));
                assert forall|j: int| 0 <= j < i implies matched[j] != true by {
                    assert(entry_text(entries@, j) != wanted@);
                }
                assert(first_terminator(matched, true, i as int));
                let k = choose|k: int| first_terminator(matched, true, k);
                crate::cstr::lemma_first_terminator_unique(matched, true, i as int, k);
            }
            return outcome;
        }
        assert(entry_text(entries@, i as int) != wanted@);
        i = i + 1;
    }
    proof {
        assert forall|k: int| !first_terminator(matched, true, k) by {
            if 0 <= k < matched.len() {
                assert(entry_text(entries@, k) != wanted@);
            }
        }
    }
    Err(ModuleLookupError::NotListed)
}

/// Every entry name carries its terminator.
pub open spec fn all_names_terminated(entries: Seq<ModuleEntry>) -> bool {
    forall|i: int| 0 <= i < entries.len() ==> (#[trigger] terminated_prefix(entries[i].name@, 0u8)) is Some
}

/// Checks that every entry name carries its terminator, then looks up the
/// module named `wanted`; `None` when some name has no terminator.
pub fn lookup_module_base(entries: &Vec<ModuleEntry>, wanted: &str) -> (res: Option<Result<u64, ModuleLookupError>>)
    ensures
        res is None <==> !all_names_terminated(entries@),
        res matches Some(r) ==> r == module_base_spec(entry_bases(entries@), entry_names(entries@), wanted@),
{
    let mut i: usize = 0;
    while i < entries.len()
        invariant
            i <= entries@.len(),
            forall|j: int| 0 <= j < i ==> (#[trigger] terminated_prefix(entries@[j].name@, 0u8)) is Some,
        decreases entries@.len() - i,
    {
        match bytes_before_nul(entries[i].name.as_slice()) {
            Some(_) => {},
            None => {
                return None;
            },
        }
        i = i + 1;
    }
    Some(find_module_base(entries, wanted))
}

/// `module_base_spec` picks the first entry named `wanted`.
pub proof fn lemma_module_base_first_match(bases: Seq<u64>, names: Seq<Seq<char>>, wanted: Seq<char>, i: int)
    requires
        bases.len() == names.len(),
        0 <= i < names.len(),
        names[i] == wanted,
        forall|j: int| 0 <= j < i ==> names[j] != wanted,
    ensures
        module_base_spec(bases, names, wanted) == (if bases[i] == 0 {
            Err::<u64, ModuleLookupError>(ModuleLookupError::NullBase)
        } else {
            Ok(bases[i])
        }),
{
    let matched = names_matching(names, wanted);
    assert forall|j: int| 0 <= j < i implies matched[j] != true by {
        assert(names[j] != wanted);
    }
    assert(first_terminator(matched, true, i));
    let k = choose|k: int| first_terminator(matched, true, k);
    crate::cstr::lemma_first_terminator_unique(matched, true, i, k);
}

/// With no entry named `wanted`, `module_base_spec` reports `NotListed`.
pub proof fn lemma_module_base_not_listed(bases: Seq<u64>, names: Seq<Seq<char>>, wanted: Seq<char>)
    requires
        forall|j: int| 0 <= j < names.len() ==> names[j] != wanted,
    ensures
        module_base_spec(bases, names, wanted) == Err::<u64, ModuleLookupError>(ModuleLookupError::NotListed),
{
    let matched = names_matching(names, wanted);
    assert forall|k: int| !first_terminator(matched, true, k) by {
        if 0 <= k < matched.len() {
            assert(names[k] != wanted);
        }
    }
}

} // verus!
