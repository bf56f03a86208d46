use loader_symbols::entry::{NameSource, RawEntry, Section};
use loader_symbols::error::ResolveError;
use loader_symbols::resolve::resolve;
use loader_symbols::symbol::Sym;
use metagoblin::strtab::Strtab;

fn text() -> Vec<Section> {
    vec![Section { name: String::from(".text"), base: 0x1000, size: 0x100 }]
}

fn text_and_data() -> Vec<Section> {
    vec![
        Section { name: String::from(".text"), base: 0x1000, size: 0x100 },
        Section { name: String::from(".data"), base: 0x2000, size: 0x80 },
    ]
}

fn primary(name: &str, value: u32, section_index: u32) -> RawEntry {
    RawEntry {
        name: NameSource::Inline(String::from(name)),
        value,
        section_index,
        section_definition: false,
        file: false,
        weak_external: false,
    }
}

fn weak(name: &str, value: u32, section_index: u32) -> RawEntry {
    RawEntry { weak_external: true, ..primary(name, value, section_index) }
}

fn sym(name: &str, addr: u32, size: u64) -> Sym {
    Sym {
        sectbase: 0x1000,
        sectsize: 0x100,
        addr,
        section: String::from(".text"),
        name: String::from(name),
        size,
    }
}

fn data_sym(name: &str, addr: u32, size: u64) -> Sym {
    Sym {
        sectbase: 0x2000,
        sectsize: 0x80,
        addr,
        section: String::from(".data"),
        name: String::from(name),
        size,
    }
}

fn names(syms: &[Sym]) -> Vec<String> {
    syms.iter().map(|s| s.name.clone()).collect()
}

#[test]
fn two_symbols_share_a_section() {
    let entries = vec![primary("foo", 0x8, 1), primary("bar", 0x10, 1)];
    let out = resolve(&entries, &text(), &Strtab::default()).unwrap();
    assert_eq!(out, vec![sym("foo", 0x8, 0x8), sym("bar", 0x10, 0xf0)]);
}

#[test]
fn table_order_does_not_decide_output_order() {
    let entries = vec![primary("bar", 0x10, 1), primary("foo", 0x8, 1)];
    let out = resolve(&entries, &text(), &Strtab::default()).unwrap();
    assert_eq!(out, vec![sym("foo", 0x8, 0x8), sym("bar", 0x10, 0xf0)]);
}

#[test]
fn an_empty_table_resolves_to_nothing() {
    assert_eq!(resolve(&vec![], &text(), &Strtab::default()), Ok(vec![]));
    assert_eq!(resolve(&vec![], &vec![], &Strtab::default()), Ok(vec![]));
}

#[test]
fn entries_of_value_zero_are_discarded() {
    let entries = vec![primary("start", 0, 1), primary("bar", 0x10, 1), weak("alias", 0, 1)];
    let out = resolve(&entries, &text(), &Strtab::default()).unwrap();
    assert_eq!(out, vec![sym("bar", 0x10, 0xf0)]);
}

#[test]
fn two_primaries_of_value_zero_do_not_conflict() {
    let entries = vec![primary("foo", 0, 1), primary("bar", 0, 1)];
    assert_eq!(resolve(&entries, &text(), &Strtab::default()), Ok(vec![]));
}

#[test]
fn section_definitions_and_file_records_are_discarded() {
    let entries = vec![
        RawEntry { section_definition: true, ..primary(".text", 0x4, 1) },
        RawEntry { file: true, ..primary(".file", 0x8, 1) },
        primary("bar", 0x10, 1),
    ];
    let out = resolve(&entries, &text(), &Strtab::default()).unwrap();
    assert_eq!(out, vec![sym("bar", 0x10, 0xf0)]);
}

#[test]
fn local_aliases_are_discarded() {
    let entries = vec![
        primary("memcpy.localalias", 0x8, 1),
        primary("memcpy", 0x8, 1),
        weak("memmove.localalias", 0x20, 1),
        primary(".localalias", 0x30, 1),
        primary("localalias", 0x40, 1),
        primary("x.localalias.y", 0x50, 1),
    ];
    let out = resolve(&entries, &text(), &Strtab::default()).unwrap();
    assert_eq!(names(&out), vec!["memcpy", "localalias", "x.localalias.y"]);
}

#[test]
fn a_discarded_entry_need_not_name_a_section() {
    let entries = vec![
        primary("gone.localalias", 0x8, 9),
        primary("zero", 0, 9),
        RawEntry { file: true, ..primary("file", 0x8, 0) },
        RawEntry { section_definition: true, ..primary("sect", 0x8, 77) },
        primary("bar", 0x10, 1),
    ];
    let out = resolve(&entries, &text(), &Strtab::default()).unwrap();
    assert_eq!(out, vec![sym("bar", 0x10, 0xf0)]);
}

#[test]
fn weak_alias_of_a_primary_is_dropped() {
    let entries = vec![primary("foo", 0x8, 1), weak("foo_weak", 0x8, 1)];
    let out = resolve(&entries, &text(), &Strtab::default()).unwrap();
    assert_eq!(out, vec![sym("foo", 0x8, 0xf8)]);
}

#[test]
fn weak_alias_before_its_primary_is_dropped_too() {
    let entries = vec![weak("foo_weak", 0x8, 1), primary("foo", 0x8, 1)];
    let out = resolve(&entries, &text(), &Strtab::default()).unwrap();
    assert_eq!(out, vec![sym("foo", 0x8, 0xf8)]);
}

#[test]
fn alias_is_matched_by_address_across_sections() {
    let sections = vec![
        Section { name: String::from(".text"), base: 0x1000, size: 0x100 },
        Section { name: String::from(".alias"), base: 0x1004, size: 0x100 },
    ];
    let entries = vec![weak("foo_weak", 0x4, 2), primary("foo", 0x8, 1)];
    let out = resolve(&entries, &sections, &Strtab::default()).unwrap();
    assert_eq!(out, vec![sym("foo", 0x8, 0xf8)]);
}

#[test]
fn orphan_weak_external_is_promoted() {
    let entries = vec![weak("only_weak", 0x20, 1), primary("foo", 0x8, 1)];
    let out = resolve(&entries, &text(), &Strtab::default()).unwrap();
    assert_eq!(out, vec![sym("foo", 0x8, 0x18), sym("only_weak", 0x20, 0xe0)]);
}

#[test]
fn second_orphan_at_an_address_is_an_alias_of_the_first() {
    let entries = vec![weak("first", 0x20, 1), weak("second", 0x20, 1)];
    let out = resolve(&entries, &text(), &Strtab::default()).unwrap();
    assert_eq!(out, vec![sym("first", 0x20, 0xe0)]);
}

#[test]
fn two_primaries_at_one_address_conflict() {
    let entries = vec![primary("foo", 0x8, 1), primary("bar", 0x8, 1)];
    let err = resolve(&entries, &text(), &Strtab::default()).unwrap_err();
    assert_eq!(
        err,
        ResolveError::DuplicateSymbol { existing: sym("foo", 0x8, 0), new: sym("bar", 0x8, 0) }
    );
}

#[test]
fn conflict_is_by_address_not_by_section() {
    let sections = vec![
        Section { name: String::from(".text"), base: 0x1000, size: 0x100 },
        Section { name: String::from(".other"), base: 0x1004, size: 0x100 },
    ];
    let entries = vec![primary("foo", 0x8, 1), primary("bar", 0x4, 2)];
    let err = resolve(&entries, &sections, &Strtab::default()).unwrap_err();
    assert_eq!(
        err,
        ResolveError::DuplicateSymbol {
            existing: sym("foo", 0x8, 0),
            new: Sym {
                sectbase: 0x1004,
                sectsize: 0x100,
                addr: 0x4,
                section: String::from(".other"),
                name: String::from("bar"),
                size: 0,
            },
        }
    );
}

#[test]
fn same_name_at_two_addresses_is_no_conflict() {
    let entries = vec![primary("foo", 0x8, 1), primary("foo", 0x10, 1)];
    let out = resolve(&entries, &text(), &Strtab::default()).unwrap();
    assert_eq!(out, vec![sym("foo", 0x8, 0x8), sym("foo", 0x10, 0xf0)]);
}

#[test]
fn section_index_zero_is_invalid() {
    let entries = vec![primary("foo", 0x8, 0)];
    assert_eq!(
        resolve(&entries, &text(), &Strtab::default()),
        Err(ResolveError::InvalidSectionIndex { index: 0, section_index: 0 })
    );
}

#[test]
fn section_index_past_the_last_section_is_invalid() {
    let entries = vec![primary("foo", 0x8, 2), primary("bar", 0x10, 3)];
    assert_eq!(
        resolve(&entries, &text_and_data(), &Strtab::default()),
        Err(ResolveError::InvalidSectionIndex { index: 1, section_index: 3 })
    );
}

#[test]
fn primaries_are_examined_before_any_weak_external() {
    let entries = vec![weak("lost", 0x8, 5), primary("foo", 0x10, 1), primary("bar", 0x10, 1)];
    let err = resolve(&entries, &text(), &Strtab::default()).unwrap_err();
    assert_eq!(
        err,
        ResolveError::DuplicateSymbol { existing: sym("foo", 0x10, 0), new: sym("bar", 0x10, 0) }
    );
    let entries = vec![weak("lost", 0x8, 5), primary("foo", 0x10, 1)];
    assert_eq!(
        resolve(&entries, &text(), &Strtab::default()),
        Err(ResolveError::InvalidSectionIndex { index: 0, section_index: 5 })
    );
}

#[test]
fn names_come_from_the_string_table() {
    let bytes = b"first_long_name\0second_long_name\0";
    let strings = Strtab::parse(bytes, 0, bytes.len(), 0).unwrap();
    let entries = vec![
        RawEntry { name: NameSource::TableOffset(16), ..primary("", 0x20, 1) },
        RawEntry { name: NameSource::TableOffset(0), ..primary("", 0x10, 1) },
    ];
    let out = resolve(&entries, &text(), &strings).unwrap();
    assert_eq!(
        out,
        vec![sym("first_long_name", 0x10, 0x10), sym("second_long_name", 0x20, 0xe0)]
    );
}

#[test]
fn local_alias_is_recognised_in_a_name_from_the_string_table() {
    let bytes = b"memset.localalias\0memset\0";
    let strings = Strtab::parse(bytes, 0, bytes.len(), 0).unwrap();
    let entries = vec![
        RawEntry { name: NameSource::TableOffset(0), ..primary("", 0x10, 1) },
        RawEntry { name: NameSource::TableOffset(18), ..primary("", 0x10, 1) },
    ];
    let out = resolve(&entries, &text(), &strings).unwrap();
    assert_eq!(out, vec![sym("memset", 0x10, 0xf0)]);
}

#[test]
fn offset_outside_the_string_table_is_fatal() {
    let bytes = b"name\0";
    let strings = Strtab::parse(bytes, 0, bytes.len(), 0).unwrap();
    let entries = vec![
        primary("foo", 0x8, 1),
        RawEntry { name: NameSource::TableOffset(40), ..primary("", 0x10, 1) },
    ];
    let err = resolve(&entries, &text(), &strings).unwrap_err();
    assert_eq!(err, ResolveError::MissingStringTableEntry { index: 1, offset: 40 });
}

#[test]
fn a_missing_name_is_fatal_even_for_an_entry_that_would_be_discarded() {
    let entries = vec![
        primary("foo", 0x8, 1),
        RawEntry { file: true, name: NameSource::TableOffset(3), ..primary("", 0, 0) },
    ];
    assert_eq!(
        resolve(&entries, &text(), &Strtab::default()),
        Err(ResolveError::MissingStringTableEntry { index: 1, offset: 3 })
    );
}

#[test]
fn a_missing_name_comes_before_a_later_conflict() {
    let entries = vec![
        RawEntry { name: NameSource::TableOffset(7), ..weak("", 0x8, 1) },
        primary("foo", 0x10, 1),
        primary("bar", 0x10, 1),
    ];
    assert_eq!(
        resolve(&entries, &text(), &Strtab::default()),
        Err(ResolveError::MissingStringTableEntry { index: 0, offset: 7 })
    );
}

#[test]
fn sizes_cover_each_section() {
    let entries = vec![
        primary("d2", 0x40, 2),
        primary("t3", 0x80, 1),
        primary("t1", 0x4, 1),
        primary("d1", 0x10, 2),
        primary("t2", 0x20, 1),
    ];
    let out = resolve(&entries, &text_and_data(), &Strtab::default()).unwrap();
    assert_eq!(
        out,
        vec![
            sym("t1", 0x4, 0x1c),
            sym("t2", 0x20, 0x60),
            sym("t3", 0x80, 0x80),
            data_sym("d1", 0x10, 0x30),
            data_sym("d2", 0x40, 0x40),
        ]
    );
}

#[test]
fn a_symbol_at_the_end_of_its_section_has_size_zero() {
    let entries = vec![primary("end", 0x100, 1)];
    let out = resolve(&entries, &text(), &Strtab::default()).unwrap();
    assert_eq!(out, vec![sym("end", 0x100, 0)]);
}

#[test]
fn a_symbol_past_the_end_of_its_section_is_fatal() {
    let entries = vec![primary("foo", 0x8, 1), primary("past", 0x101, 1)];
    assert_eq!(
        resolve(&entries, &text(), &Strtab::default()),
        Err(ResolveError::NegativeSize { symbol: sym("past", 0x101, 0) })
    );
}

#[test]
fn only_the_last_symbol_of_a_section_is_held_to_its_end() {
    let sections = vec![Section { name: String::from(".text"), base: 0x1000, size: 0x10 }];
    let entries = vec![primary("a", 0x20, 1), primary("b", 0x30, 1)];
    let err = resolve(&entries, &sections, &Strtab::default()).unwrap_err();
    assert_eq!(
        err,
        ResolveError::NegativeSize {
            symbol: Sym {
                sectbase: 0x1000,
                sectsize: 0x10,
                addr: 0x30,
                section: String::from(".text"),
                name: String::from("b"),
                size: 0,
            },
        }
    );
}

#[test]
fn sections_that_interleave_end_a_run_at_each_change() {
    let sections = vec![
        Section { name: String::from(".a"), base: 0x1000, size: 0x100 },
        Section { name: String::from(".b"), base: 0x1010, size: 0x100 },
    ];
    let entries = vec![primary("a1", 0x8, 1), primary("b1", 0x8, 2), primary("a2", 0x40, 1)];
    let out = resolve(&entries, &sections, &Strtab::default()).unwrap();
    let sizes: Vec<u64> = out.iter().map(|s| s.size).collect();
    assert_eq!(names(&out), vec!["a1", "b1", "a2"]);
    assert_eq!(sizes, vec![0xf8, 0xf8, 0xc0]);
}

#[test]
fn addresses_beyond_32_bits_do_not_wrap() {
    let sections = vec![Section { name: String::from(".hi"), base: 0xffff_fff0, size: 0x100 }];
    let entries = vec![primary("low", 0x8, 1), primary("high", 0x20, 1)];
    let out = resolve(&entries, &sections, &Strtab::default()).unwrap();
    assert_eq!(out[0].vaddr(0), 0xffff_fff8);
    assert_eq!(out[1].vaddr(0), 0x1_0000_0010);
    assert_eq!(out[1].vaddr(0xffff_ffff), 0x2_0000_000f);
    assert_eq!(out[0].size, 0x18);
    assert_eq!(out[1].size, 0xe0);
}

#[test]
fn output_addresses_rise_strictly() {
    let entries = vec![
        primary("e", 0x50, 1),
        weak("w1", 0x30, 1),
        primary("c", 0x30, 1),
        primary("a", 0x10, 1),
        weak("w2", 0x40, 1),
        primary("b", 0x20, 1),
        weak("w3", 0x40, 1),
    ];
    let out = resolve(&entries, &text(), &Strtab::default()).unwrap();
    assert_eq!(names(&out), vec!["a", "b", "c", "w2", "e"]);
    for pair in out.windows(2) {
        assert!(pair[0].vaddr(0) < pair[1].vaddr(0));
        assert_eq!(pair[0].size, pair[1].vaddr(0) - pair[0].vaddr(0));
    }
}
