use ppt2_sync::cstr::{bytes_before_nul, c_string, units_before_nul};
use ppt2_sync::injection::{decoded_name_is, find_process, listed_pids, process_name_matches, InjectionPayload};
use ppt2_sync::modules::{examine_entry, find_module_base, judge_entry, lookup_module_base, ModuleEntry, ModuleLookupError};

const GAME: &str = "PuyoPuyoTetris2.exe";

fn sz_module(name: &[u8]) -> Vec<u8> {
    let mut raw = vec![0u8; 256];
    raw[..name.len()].copy_from_slice(name);
    raw
}

fn entry(name: &[u8], base: u64) -> ModuleEntry {
    ModuleEntry { name: sz_module(name), base_address: base }
}

#[test]
fn finds_first_matching_module() {
    let entries = vec![
        entry(b"ntdll.dll", 0x7ff0_0000),
        entry(GAME.as_bytes(), 0x1_4000_0000),
        entry(GAME.as_bytes(), 0x2_0000_0000),
    ];
    assert_eq!(find_module_base(&entries, GAME), Ok(0x1_4000_0000));
}

#[test]
fn missing_module_is_not_listed() {
    let entries = vec![entry(b"ntdll.dll", 0x7ff0_0000), entry(b"kernel32.dll", 0x7ff1_0000)];
    assert_eq!(find_module_base(&entries, GAME), Err(ModuleLookupError::NotListed));
    assert_eq!(find_module_base(&vec![], GAME), Err(ModuleLookupError::NotListed));
}

#[test]
fn null_base_is_refused() {
    let entries = vec![entry(GAME.as_bytes(), 0), entry(GAME.as_bytes(), 0x1000)];
    assert_eq!(find_module_base(&entries, GAME), Err(ModuleLookupError::NullBase));
}

#[test]
fn name_is_read_up_to_its_terminator() {
    let mut raw = sz_module(b"game.exe");
    raw[9] = b'x'; // bytes after the terminator do not count
    let entries = vec![ModuleEntry { name: raw, base_address: 7 }];
    assert_eq!(find_module_base(&entries, "game.exe"), Ok(7));
    assert_eq!(find_module_base(&entries, "game.exe\0x"), Err(ModuleLookupError::NotListed));
}

#[test]
fn invalid_utf8_name_is_decoded_lossily() {
    let entries = vec![entry(&[b'a', 0xFF, b'b'], 42)];
    assert_eq!(find_module_base(&entries, "a\u{FFFD}b"), Ok(42));
    assert_eq!(find_module_base(&entries, "ab"), Err(ModuleLookupError::NotListed));
}

#[test]
fn judge_uses_decoded_names() {
    assert_eq!(judge_entry(&GAME.to_string(), 2, GAME), Some(Ok(2)));
    assert_eq!(judge_entry(&GAME.to_string(), 0, GAME), Some(Err(ModuleLookupError::NullBase)));
    assert_eq!(judge_entry(&"x".to_string(), 2, GAME), None);
}

#[test]
fn examine_single_entries() {
    assert_eq!(examine_entry(&entry(GAME.as_bytes(), 9), GAME), Some(Ok(9)));
    assert_eq!(examine_entry(&entry(b"ntdll.dll", 9), GAME), None);
}

#[test]
fn search_stops_at_first_match() {
    // the entry after the match has no terminator and is never read
    let entries = vec![
        entry(GAME.as_bytes(), 0x5000),
        ModuleEntry { name: vec![b'z'; 256], base_address: 1 },
    ];
    assert_eq!(find_module_base(&entries, GAME), Ok(0x5000));
}

#[test]
fn prefixes_before_nul() {
    assert_eq!(bytes_before_nul(b"abc\0def"), Some(b"abc".to_vec()));
    assert_eq!(bytes_before_nul(b"\0"), Some(vec![]));
    assert_eq!(bytes_before_nul(b"abc"), None);
    assert_eq!(units_before_nul(&[104, 105, 0, 33]), Some(vec![104, 105]));
    assert_eq!(units_before_nul(&[104, 105]), None);
}

#[test]
fn c_string_appends_terminator() {
    assert_eq!(c_string(b"Kernel32.dll"), Some(b"Kernel32.dll\0".to_vec()));
    assert_eq!(c_string(b""), Some(vec![0]));
    assert_eq!(c_string(b"a\0b"), None);
    let back = bytes_before_nul(&c_string(b"LoadLibraryA").unwrap());
    assert_eq!(back, Some(b"LoadLibraryA".to_vec()));
}

#[test]
fn listed_pids_takes_reported_count() {
    let pids = [4u32, 8, 12, 16, 0, 0];
    assert_eq!(listed_pids(&pids, 16), vec![4, 8, 12, 16]);
    assert_eq!(listed_pids(&pids, 18), vec![4, 8, 12, 16]);
    assert_eq!(listed_pids(&pids, 0), Vec::<u32>::new());
    assert_eq!(listed_pids(&pids, 24), pids.to_vec());
}

fn wide(s: &str) -> Vec<u16> {
    let mut v: Vec<u16> = s.encode_utf16().collect();
    v.resize(4096, 0);
    v
}

#[test]
fn process_name_matching() {
    assert!(process_name_matches(&wide(GAME), GAME));
    assert!(!process_name_matches(&wide("explorer.exe"), GAME));
    assert!(!process_name_matches(&wide("PuyoPuyoTetris2.exe.bak"), GAME));
    // a name with a character outside the BMP decodes from a surrogate pair
    assert!(process_name_matches(&wide("g\u{1F600}.exe"), "g\u{1F600}.exe"));
    // no terminator: no name
    let full: Vec<u16> = GAME.encode_utf16().collect();
    assert!(!process_name_matches(&full, GAME));
    // an unpaired surrogate does not decode
    let mut broken = wide(GAME);
    broken[0] = 0xD800;
    assert!(!process_name_matches(&broken, GAME));
}

#[test]
fn decoded_name_comparison() {
    assert!(decoded_name_is(Some(GAME.to_string()), GAME));
    assert!(!decoded_name_is(Some("other".to_string()), GAME));
    assert!(!decoded_name_is(None, GAME));
}

#[test]
fn injection_payload_is_path_and_nul() {
    let path = b"C:\\games\\ppt2_sync.dll";
    let p = InjectionPayload::for_dll_path(path).unwrap();
    assert_eq!(p.bytes.len(), path.len() + 1);
    assert_eq!(*p.bytes.last().unwrap(), 0);
    assert!(p.write_complete(path.len() + 1));
    assert!(!p.write_complete(path.len()));
    assert!(!p.write_complete(0));
    assert!(InjectionPayload::for_dll_path(b"bad\0path").is_none());
}

#[test]
fn lookup_checks_terminators_first() {
    let good = vec![entry(b"a.dll", 1), entry(GAME.as_bytes(), 2)];
    assert_eq!(lookup_module_base(&good, GAME), Some(Ok(2)));
    assert_eq!(lookup_module_base(&good, "b.dll"), Some(Err(ModuleLookupError::NotListed)));
    let bad = vec![entry(GAME.as_bytes(), 2), ModuleEntry { name: vec![b'z'; 256], base_address: 1 }];
    assert_eq!(lookup_module_base(&bad, GAME), None);
}

#[test]
fn finds_first_matching_process() {
    let pids = vec![4, 8, 12, 16];
    let names = vec![Some(wide("System")), None, Some(wide(GAME)), Some(wide(GAME))];
    assert_eq!(find_process(&pids, &names, GAME), Some(12));
    assert_eq!(find_process(&pids, &names, "notepad.exe"), None);
    assert_eq!(find_process(&vec![], &vec![], GAME), None);
}
