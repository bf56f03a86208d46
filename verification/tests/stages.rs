use loader_symbols::entry::{NameSource, RawEntry, Section};
use loader_symbols::error::ResolveError;
use loader_symbols::gather::{find_place, gather, offer_entry, run_pass};
use loader_symbols::names::{has_suffix, names_local_alias, resolve_name, same_text};
use loader_symbols::order::{insert_in_order, sort_by_address};
use loader_symbols::sizes::infer_sizes;
use loader_symbols::symbol::Sym;
use metagoblin::strtab::Strtab;

fn placed(name: &str, section: &str, sectbase: u32, sectsize: u32, addr: u32) -> Sym {
    Sym {
        sectbase,
        sectsize,
        addr,
        section: String::from(section),
        name: String::from(name),
        size: 0,
    }
}

fn candidate(name: &str, value: u32, weak_external: bool) -> RawEntry {
    RawEntry {
        name: NameSource::Inline(String::from(name)),
        value,
        section_index: 1,
        section_definition: false,
        file: false,
        weak_external,
    }
}

fn one_section() -> Vec<Section> {
    vec![Section { name: String::from(".text"), base: 0x100, size: 0x100 }]
}

fn order_of(syms: &[Sym]) -> Vec<String> {
    syms.iter().map(|s| s.name.clone()).collect()
}

#[test]
fn suffix_is_compared_character_by_character() {
    assert!(has_suffix("memcpy.localalias", ".localalias"));
    assert!(has_suffix(".localalias", ".localalias"));
    assert!(has_suffix("anything", ""));
    assert!(has_suffix("", ""));
    assert!(!has_suffix("localalias", ".localalias"));
    assert!(!has_suffix("memcpy.localalias ", ".localalias"));
    assert!(!has_suffix("memcpy.localaliaz", ".localalias"));
    assert!(!has_suffix("", "x"));
    assert!(has_suffix("größe", "öße"));
    assert!(!has_suffix("große", "öße"));
}

#[test]
fn local_alias_is_a_matter_of_the_suffix() {
    assert!(names_local_alias("memcpy.localalias"));
    assert!(names_local_alias(".localalias"));
    assert!(!names_local_alias("memcpy"));
    assert!(!names_local_alias("memcpy.localalias.0"));
    assert!(!names_local_alias("memcpy.LOCALALIAS"));
    assert!(!names_local_alias(""));
}

#[test]
fn text_is_the_same_when_every_character_is() {
    assert!(same_text("", ""));
    assert!(same_text(".text", ".text"));
    assert!(!same_text(".text", ".tex"));
    assert!(!same_text(".tex", ".text"));
    assert!(!same_text(".text", ".data"));
    assert!(!same_text("x.text", ".text"));
}

#[test]
fn a_name_is_inline_or_looked_up() {
    let bytes = b"\0alpha\0beta\0";
    let strings = Strtab::parse(bytes, 0, bytes.len(), 0).unwrap();
    let inline = NameSource::Inline(String::from("gamma"));
    assert_eq!(resolve_name(&inline, &strings), Some(String::from("gamma")));
    assert_eq!(resolve_name(&NameSource::TableOffset(1), &strings), Some(String::from("alpha")));
    assert_eq!(resolve_name(&NameSource::TableOffset(7), &strings), Some(String::from("beta")));
    assert_eq!(resolve_name(&NameSource::TableOffset(9), &strings), Some(String::from("ta")));
    assert_eq!(resolve_name(&NameSource::TableOffset(0), &strings), Some(String::new()));
    assert_eq!(resolve_name(&NameSource::TableOffset(12), &strings), None);
    assert_eq!(resolve_name(&NameSource::TableOffset(u32::MAX), &strings), None);
    assert_eq!(resolve_name(&NameSource::TableOffset(0), &Strtab::default()), None);
}

#[test]
fn the_first_symbol_at_a_place_is_found() {
    let working = vec![
        placed("a", ".text", 0x100, 0x100, 0x10),
        placed("b", ".data", 0x200, 0x100, 0x20),
        placed("c", ".text", 0x100, 0x100, 0x120),
    ];
    assert_eq!(find_place(&working, 0x110), Some(0));
    assert_eq!(find_place(&working, 0x220), Some(1));
    assert_eq!(find_place(&working, 0x10), None);
    assert_eq!(find_place(&vec![], 0x110), None);
}

#[test]
fn an_entry_is_offered_to_the_pass_it_belongs_to() {
    let sections = one_section();
    let strings = Strtab::default();
    let mut working = Vec::new();
    let weak = candidate("w", 0x8, true);
    let strong = candidate("s", 0x8, false);

    assert_eq!(offer_entry(&mut working, 0, &weak, &sections, &strings, false), Ok(()));
    assert_eq!(working, vec![]);
    assert_eq!(offer_entry(&mut working, 1, &strong, &sections, &strings, true), Ok(()));
    assert_eq!(working, vec![]);
    assert_eq!(offer_entry(&mut working, 1, &strong, &sections, &strings, false), Ok(()));
    assert_eq!(working, vec![placed("s", ".text", 0x100, 0x100, 0x8)]);
    assert_eq!(offer_entry(&mut working, 0, &weak, &sections, &strings, true), Ok(()));
    assert_eq!(working, vec![placed("s", ".text", 0x100, 0x100, 0x8)]);
    assert_eq!(
        offer_entry(&mut working, 2, &strong, &sections, &strings, false),
        Err(ResolveError::DuplicateSymbol {
            existing: placed("s", ".text", 0x100, 0x100, 0x8),
            new: placed("s", ".text", 0x100, 0x100, 0x8),
        })
    );
    assert_eq!(working, vec![placed("s", ".text", 0x100, 0x100, 0x8)]);
}

#[test]
fn a_pass_takes_only_its_own_kind() {
    let entries =
        vec![candidate("w", 0x30, true), candidate("a", 0x20, false), candidate("b", 0x10, false)];
    let sections = one_section();
    let strings = Strtab::default();
    let mut working = Vec::new();
    assert_eq!(run_pass(&mut working, &entries, &sections, &strings, false), Ok(()));
    assert_eq!(order_of(&working), vec!["a", "b"]);
    assert_eq!(run_pass(&mut working, &entries, &sections, &strings, true), Ok(()));
    assert_eq!(order_of(&working), vec!["a", "b", "w"]);
}

#[test]
fn the_working_set_keeps_table_order_with_primaries_first() {
    let entries = vec![
        candidate("w1", 0x40, true),
        candidate("c", 0x30, false),
        candidate("w2", 0x30, true),
        candidate("a", 0x10, false),
        candidate("w3", 0x5, true),
    ];
    let working = gather(&entries, &one_section(), &Strtab::default()).unwrap();
    assert_eq!(order_of(&working), vec!["c", "a", "w1", "w3"]);
    assert!(working.iter().all(|s| s.size == 0));
}

#[test]
fn a_symbol_goes_before_the_first_that_is_not_below_it() {
    let mut syms =
        vec![placed("a", ".text", 0, 0x100, 0x10), placed("c", ".text", 0, 0x100, 0x30)];
    insert_in_order(&mut syms, placed("b", ".text", 0, 0x100, 0x20));
    assert_eq!(order_of(&syms), vec!["a", "b", "c"]);
    insert_in_order(&mut syms, placed("z", ".text", 0, 0x100, 0x40));
    assert_eq!(order_of(&syms), vec!["a", "b", "c", "z"]);
    insert_in_order(&mut syms, placed("first", ".text", 0, 0x100, 0x1));
    assert_eq!(order_of(&syms), vec!["first", "a", "b", "c", "z"]);
    insert_in_order(&mut syms, placed("b0", ".data", 0x10, 0x100, 0x10));
    assert_eq!(order_of(&syms), vec!["first", "a", "b0", "b", "c", "z"]);
}

#[test]
fn sorting_is_by_address_and_keeps_equal_addresses_in_order() {
    let mut syms = vec![
        placed("d", ".data", 0x200, 0x100, 0x4),
        placed("b1", ".text", 0x100, 0x100, 0x20),
        placed("a", ".text", 0x100, 0x100, 0x10),
        placed("b2", ".b", 0x110, 0x100, 0x10),
        placed("c", ".text", 0x100, 0x100, 0x30),
        placed("b3", ".c", 0x120, 0x100, 0x0),
    ];
    sort_by_address(&mut syms);
    assert_eq!(order_of(&syms), vec!["a", "b1", "b2", "b3", "c", "d"]);
    let mut none: Vec<Sym> = vec![];
    sort_by_address(&mut none);
    assert_eq!(none, vec![]);
}

#[test]
fn sizes_are_set_from_the_neighbours() {
    let mut syms = vec![
        placed("a", ".text", 0x100, 0x100, 0x10),
        placed("b", ".text", 0x100, 0x100, 0x18),
        placed("c", ".data", 0x200, 0x40, 0x0),
        placed("d", ".data", 0x200, 0x40, 0x40),
    ];
    assert_eq!(infer_sizes(&mut syms), Ok(()));
    let sizes: Vec<u64> = syms.iter().map(|s| s.size).collect();
    assert_eq!(sizes, vec![0x8, 0xe8, 0x40, 0x0]);
    assert_eq!(order_of(&syms), vec!["a", "b", "c", "d"]);
}

#[test]
fn the_first_negative_size_is_reported() {
    let mut syms = vec![
        placed("a", ".text", 0x100, 0x100, 0x10),
        placed("b", ".data", 0x200, 0x40, 0x41),
        placed("c", ".bss", 0x300, 0x0, 0x1),
    ];
    assert_eq!(
        infer_sizes(&mut syms),
        Err(ResolveError::NegativeSize { symbol: placed("b", ".data", 0x200, 0x40, 0x41) })
    );
    let mut unsorted =
        vec![placed("b", ".text", 0x100, 0x100, 0x20), placed("a", ".text", 0x100, 0x100, 0x10)];
    assert_eq!(
        infer_sizes(&mut unsorted),
        Err(ResolveError::NegativeSize { symbol: placed("b", ".text", 0x100, 0x100, 0x20) })
    );
}
