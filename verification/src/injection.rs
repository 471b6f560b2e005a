//! The injector's logic: which processes the process list names, whether a
//! process is the game, and the DLL path written into the game's memory.
use vstd::prelude::*;
use crate::cstr::{c_string, c_string_spec, first_terminator, terminated_prefix, units_before_nul};

verus! {

/// Size in bytes of one process id in the buffer `EnumProcesses` fills.
pub const PID_SIZE: u32 = 4;

/// The process ids that `EnumProcesses` reported: the first `used_bytes / 4`
/// entries of the buffer it filled.
pub fn listed_pids(pids: &[u32], used_bytes: u32) -> (listed: Vec<u32>)
    requires
        (used_bytes / PID_SIZE) as int <= pids@.len(),
    ensures
        listed@ == pids@.take((used_bytes / PID_SIZE) as int),
{
    let count: usize = (used_bytes / PID_SIZE) as usize;
    let mut listed: Vec<u32> = Vec::new();
    let mut i: usize = 0;
    while i < count
        invariant
            count as int == (used_bytes / PID_SIZE) as int,
            count <= pids@.len(),
            i <= count,
            listed@ == pids@.take(i as int),
        decreases count - i,
    {
        listed.push(pids[i]);
        proof {
            assert(listed@ =~= pids@.take(i as int + 1));
        }
        i = i + 1;
    }
    listed
}

/// `u` is a leading (high) surrogate.
pub open spec fn is_high_surrogate(u: u16) -> bool {
    0xD800 <= u <= 0xDBFF
}

/// `u` is a trailing (low) surrogate.
pub open spec fn is_low_surrogate(u: u16) -> bool {
    0xDC00 <= u <= 0xDFFF
}

/// The text that the UTF-16 code units `units` encode: a unit outside the
/// surrogate range is a character by itself, a high surrogate followed by a
/// low one is the character `0x10000 + (high - 0xD800) * 0x400 + (low - 0xDC00)`;
/// `None` when a surrogate is unpaired.
pub open spec fn utf16_decode(units: Seq<u16>) -> Option<Seq<char>>
    decreases units.len(),
{
    if units.len() == 0 {
        Some(Seq::empty())
    } else if !is_high_surrogate(units[0]) && !is_low_surrogate(units[0]) {
        match utf16_decode(units.drop_first()) {
            Some(rest) => Some(seq![units[0] as char] + rest),
            None => None,
        }
    } else if is_high_surrogate(units[0]) && units.len() >= 2 && is_low_surrogate(units[1]) {
        let c = 0x10000 + (units[0] - 0xD800) * 0x400 + (units[1] - 0xDC00);
        match utf16_decode(units.subrange(2, units.len() as int)) {
            Some(rest) => Some(seq![c as char] + rest),
            None => None,
        }
    } else {
        None
    }
}

/// Calls `String::from_utf16`, which decodes UTF-16 as `utf16_decode` does
/// and fails exactly on ill-formed input.
#[verifier::external_body]
fn decode_utf16(units: &[u16]) -> (text: Option<String>)
    ensures
        text is None <==> utf16_decode(units@) is None,
        text matches Some(t) ==> utf16_decode(units@) == Some(t@),
{
    String::from_utf16(units).ok()
}

/// Whether a decoded process name is `wanted`; an undecodable one never is.
pub fn decoded_name_is(decoded: Option<String>, wanted: &str) -> (res: bool)
    ensures
        res == (decoded matches Some(t) && t@ == wanted@),
{
    match decoded {
        Some(t) => t == wanted.to_owned(),
        None => false,
    }
}

/// The process whose base-name buffer (as filled by `GetModuleBaseNameW`)
/// is `buffer` is named `wanted`.
pub open spec fn process_named(buffer: Seq<u16>, wanted: Seq<char>) -> bool {
    match terminated_prefix(buffer, 0u16) {
        Some(units) => utf16_decode(units) == Some(wanted),
        None => false,
    }
}

/// Whether the nul-terminated UTF-16 name in `buffer` decodes to `wanted`. A
/// buffer without a terminator names nothing.
pub fn process_name_matches(buffer: &[u16], wanted: &str) -> (res: bool)
    ensures
        res == process_named(buffer@, wanted@),
{
    match units_before_nul(buffer) {
        Some(units) => {
            let decoded = decode_utf16(units.as_slice());
            decoded_name_is(decoded, wanted)
        },
        None => false,
    }
}

/// For each read base name, whether it is `wanted`.
pub open spec fn processes_matching(names: Seq<Option<Vec<u16>>>, wanted: Seq<char>) -> Seq<bool> {
    Seq::new(names.len(), |i: int| names[i] is Some && process_named(names[i].unwrap()@, wanted))
}

/// The first process of `pids` whose base name, where one was read
/// (`names[i]` is `None` for processes that could not be opened or queried),
/// is `wanted`.
pub open spec fn process_search_spec(pids: Seq<u32>, names: Seq<Option<Vec<u16>>>, wanted: Seq<char>) -> Option<u32> {
    let matched = processes_matching(names, wanted);
    if exists|i: int| first_terminator(matched, true, i) {
        Some(pids[choose|i: int| first_terminator(matched, true, i)])
    } else {
        None
    }
}

/// Finds the first process whose base name is `wanted`.
pub fn find_process(pids: &Vec<u32>, names: &Vec<Option<Vec<u16>>>, wanted: &str) -> (res: Option<u32>)
    requires
        pids@.len() == names@.len(),
    ensures
        res == process_search_spec(pids@, names@, wanted@),
{
    let ghost matched = processes_matching(names@, wanted@);
    let mut i: usize = 0;
    while i < names.len()
        invariant
            i <= names@.len(),
            pids@.len() == names@.len(),
            matched == processes_matching(names@, wanted@),
            forall|j: int| 0 <= j < i ==> matched[j] != true,
        decreases names@.len() - i,
    {
        let found = match &names[i] {
            Some(buffer) => process_name_matches(buffer.as_slice(), wanted),
            None => false,
        };
        if found {
            proof {
                assert(first_terminator(matched, true, i as int));
                let k = choose|k: int| first_terminator(matched, true, k);
                crate::cstr::lemma_first_terminator_unique(matched, true, i as int, k);
            }
            return Some(pids[i]);
        }
        i = i + 1;
    }
    proof {
        assert forall|k: int| !first_terminator(matched, true, k) by {
            if 0 <= k < matched.len() {
                assert(matched[k] != true);
            }
        }
    }
    None
}

/// The DLL path as written into the game process: its bytes and one nul.
pub struct InjectionPayload {
    /// The path's bytes followed by a nul byte.
    pub bytes: Vec<u8>,
}

impl InjectionPayload {
    /// The payload for the DLL at `path`; `None` when the path holds a nul
    /// byte and cannot be passed to `LoadLibraryA`.
    pub fn for_dll_path(path: &[u8]) -> (res: Option<InjectionPayload>)
        ensures
            match res {
                Some(p) => c_string_spec(path@) == Some(p.bytes@),
                None => c_string_spec(path@) is None,
            },
    {
        match c_string(path) {
            Some(bytes) => Some(InjectionPayload { bytes }),
            None => None,
        }
    }

    /// Whether `written` bytes, as reported by `WriteProcessMemory`, is the
    /// whole payload: the path and its terminator.
    pub fn write_complete(&self, written: usize) -> (complete: bool)
        ensures
            complete == (written == self.bytes@.len()),
    {
        written == self.bytes.len()
    }
}

/// A payload is the path's bytes plus one nul, so it is one byte longer than
/// the path, and the full write is exactly that long.
pub proof fn lemma_payload_length(path: Seq<u8>, payload: Seq<u8>)
    requires
        c_string_spec(path) == Some(payload),
    ensures
        payload.len() == path.len() + 1,
        payload.last() == 0u8,
        payload.drop_last() == path,
{
    assert(payload.drop_last() =~= path);
}

} // verus!
