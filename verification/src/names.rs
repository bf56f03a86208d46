//! Names of raw entries: the string table they may refer to, and the
//! suffix that marks a compiler-internal alias.

use vstd::prelude::*;
use metagoblin::strtab::Strtab;
use crate::entry::{NameModel, NameSource};

verus! {

/// goblin's string table.  Nothing of its inside is known here;
/// [`strtab_entries`] stands for what it holds.
#[verifier::external_type_specification]
#[verifier::external_body]
pub struct ExStrtab<'a>(Strtab<'a>);

/// The strings of a string table by the byte offset at which
/// `Strtab::get_at` finds each.  An offset that it answers with no
/// string is not in the map.
pub uninterp spec fn strtab_entries(table: Strtab) -> Map<int, Seq<char>>;

/// `Strtab::get_at` of goblin's string table, with the string copied
/// out.  The contract only ties the answer to [`strtab_entries`]: a
/// string comes back exactly for the offsets in that map, and it is the
/// one the map holds.
#[verifier::external_body]
pub(crate) fn string_at(table: &Strtab, offset: usize) -> (r: Option<String>)
    ensures
        r is Some <==> strtab_entries(*table).contains_key(offset as int),
        r matches Some(s) ==> s@ == strtab_entries(*table)[offset as int],
{
    table.get_at(offset).map(String::from)
}

/// The name that a name source denotes, given the strings of the
/// table; `None` where the table has nothing at the offset.
pub open spec fn name_of(source: NameModel, strings: Map<int, Seq<char>>) -> Option<Seq<char>> {
    match source {
        NameModel::Inline(name) => Some(name),
        NameModel::TableOffset(offset) => if strings.contains_key(offset as int) {
            Some(strings[offset as int])
        } else {
            None
        },
    }
}

/// Resolves the name of an entry: the inline name where there is one,
/// else the string of the table at the entry's offset.
pub fn resolve_name(source: &NameSource, strings: &Strtab) -> (r: Option<String>)
    ensures
        r is Some <==> name_of(source@, strtab_entries(*strings)) is Some,
        r matches Some(s) ==> name_of(source@, strtab_entries(*strings)) == Some(s@),
{
    match source {
        NameSource::Inline(name) => Some(name.clone()),
        NameSource::TableOffset(offset) => string_at(strings, *offset as usize),
    }
}

/// The suffix of the names that are compiler-internal local aliases.
pub open spec fn local_alias_suffix() -> Seq<char> {
    ".localalias"@
}

/// Whether a name is that of a local alias, which never reaches the
/// output.
pub open spec fn is_local_alias(name: Seq<char>) -> bool {
    local_alias_suffix().is_suffix_of(name)
}

/// Whether `s` ends with `suffix`, character by character.
pub fn has_suffix(s: &str, suffix: &str) -> (r: bool)
    ensures
        r == suffix@.is_suffix_of(s@),
{
    let n: usize = s.unicode_len();
    let m: usize = suffix.unicode_len();
    if n < m {
        return false;
    }
    let start: usize = n - m;
    let mut i: usize = 0;
    while i < m
        invariant
            n == s@.len(),
            m == suffix@.len(),
            start == n - m,
            i <= m,
            forall|j: int| 0 <= j < i ==> s@[start + j] == suffix@[j],
        decreases m - i,
    {
        if s.get_char(start + i) != suffix.get_char(i) {
            assert(s@.subrange(n - m, n as int)[i as int] != suffix@[i as int]);
            return false;
        }
        i += 1;
    }
    assert(s@.subrange(n - m, n as int) =~= suffix@);
    true
}

/// Whether two strings are the same text.
pub fn same_text(a: &str, b: &str) -> (r: bool)
    ensures
        r == (a@ == b@),
{
    let same = a.unicode_len() == b.unicode_len() && has_suffix(a, b);
    assert(same ==> a@.subrange(0, a@.len() as int) =~= a@);
    same
}

/// Whether the name marks a local alias.
pub fn names_local_alias(name: &str) -> (r: bool)
    ensures
        r == is_local_alias(name@),
{
    has_suffix(name, ".localalias")
}

} // verus!
