//! What a control is called: the strings of the device, the names of the
//! usage tables, and the order in which they are tried.

use crate::report::text_of;
use crate::usage::{entry_name, table_entry, usage_table_entry, Usage};
use vstd::prelude::*;

verus! {

/// One string that a device holds, under the index by which descriptors
/// refer to it.
#[derive(Debug)]
pub struct IndexedString {
    pub index: u32,
    pub text: String,
}

/// The strings read from a device. Where an index occurs twice, the entry
/// that came first counts.
#[derive(Debug)]
pub struct DeviceStrings {
    pub entries: Vec<IndexedString>,
}

/// The strings among the first `upto` entries, by index.
pub open spec fn strings_among(entries: Seq<IndexedString>, upto: nat) -> Map<u32, Seq<char>>
    decreases upto,
{
    if upto == 0 || upto > entries.len() {
        Map::empty()
    } else {
        let before = strings_among(entries, (upto - 1) as nat);
        let last = entries[upto - 1];
        if before.dom().contains(last.index) {
            before
        } else {
            before.insert(last.index, last.text@)
        }
    }
}

impl View for DeviceStrings {
    type V = Map<u32, Seq<char>>;

    open spec fn view(&self) -> Map<u32, Seq<char>> {
        strings_among(self.entries@, self.entries@.len())
    }
}

/// What a table of strings holds under an index, if anything.
pub open spec fn string_at(strings: Map<u32, Seq<char>>, index: u32) -> Option<Seq<char>> {
    if strings.dom().contains(index) {
        Some(strings[index])
    } else {
        None
    }
}

/// An index found among the first `upto` entries is held by the first entry
/// that has it, and by none where no entry has it.
pub proof fn lemma_strings_among(entries: Seq<IndexedString>, upto: nat, index: u32)
    requires
        upto <= entries.len(),
    ensures
        strings_among(entries, upto).dom().contains(index) <==> exists|k: int|
            0 <= k < upto && (#[trigger] entries[k]).index == index,
        forall|k: int|
            0 <= k < upto && (#[trigger] entries[k]).index == index && (forall|j: int|
                0 <= j < k ==> (#[trigger] entries[j]).index != index) ==> strings_among(
                entries,
                upto,
            )[index] == entries[k].text@,
    decreases upto,
{
    if upto > 0 {
        lemma_strings_among(entries, (upto - 1) as nat, index);
        let before = strings_among(entries, (upto - 1) as nat);
        if before.dom().contains(index) {
            let k = choose|k: int| 0 <= k < upto - 1 && (#[trigger] entries[k]).index == index;
            assert(entries[k].index == index);
        }
    }
}

impl DeviceStrings {
    /// No strings.
    pub fn new() -> (r: DeviceStrings)
        ensures
            r@ == Map::<u32, Seq<char>>::empty(),
    {
        DeviceStrings { entries: Vec::new() }
    }

    /// Records the string that the device holds under `index`, unless one is
    /// recorded already.
    pub fn insert(&mut self, index: u32, text: String)
        ensures
            final(self)@ == if old(self)@.dom().contains(index) {
                old(self)@
            } else {
                old(self)@.insert(index, text@)
            },
    {
        let ghost before = self.entries@;
        self.entries.push(IndexedString { index, text });
        proof {
            let after = self.entries@;
            lemma_strings_steady(before, after, before.len());
        }
    }

    /// The string under `index`, if the device gave one.
    pub fn lookup(&self, index: u32) -> (r: Option<String>)
        ensures
            text_of(r) == string_at(self@, index),
    {
        let mut k: usize = 0;
        while k < self.entries.len()
            invariant
                k <= self.entries@.len(),
                forall|j: int| 0 <= j < k ==> (#[trigger] self.entries@[j]).index != index,
            decreases self.entries@.len() - k,
        {
            if self.entries[k].index == index {
                proof {
                    lemma_strings_among(self.entries@, self.entries@.len(), index);
                }
                return Some(self.entries[k].text.clone());
            }
            k += 1;
        }
        proof {
            lemma_strings_among(self.entries@, self.entries@.len(), index);
        }
        None
    }
}

/// Entries added behind the first `upto` do not change what those hold.
pub proof fn lemma_strings_steady(before: Seq<IndexedString>, after: Seq<IndexedString>, upto: nat)
    requires
        upto <= before.len() <= after.len(),
        forall|k: int| 0 <= k < before.len() ==> before[k] == after[k],
    ensures
        strings_among(before, upto) == strings_among(after, upto),
    decreases upto,
{
    if upto > 0 {
        lemma_strings_steady(before, after, (upto - 1) as nat);
    }
}

/// The character for a digit below ten.
pub open spec fn digit_char(d: nat) -> char {
    if d == 0 {
        '0'
    } else if d == 1 {
        '1'
    } else if d == 2 {
        '2'
    } else if d == 3 {
        '3'
    } else if d == 4 {
        '4'
    } else if d == 5 {
        '5'
    } else if d == 6 {
        '6'
    } else if d == 7 {
        '7'
    } else if d == 8 {
        '8'
    } else {
        '9'
    }
}

/// A number written in decimal, without leading zeros.
pub open spec fn decimal(n: nat) -> Seq<char>
    decreases n,
{
    if n < 10 {
        seq![digit_char(n)]
    } else {
        decimal(n / 10).push(digit_char(n % 10))
    }
}

/// The text of one digit.
pub fn digit_text(d: usize) -> (r: &'static str)
    requires
        d < 10,
    ensures
        r@ == seq![digit_char(d as nat)],
{
    proof {
        reveal_strlit("0");
        reveal_strlit("1");
        reveal_strlit("2");
        reveal_strlit("3");
        reveal_strlit("4");
        reveal_strlit("5");
        reveal_strlit("6");
        reveal_strlit("7");
        reveal_strlit("8");
        reveal_strlit("9");
    }
    let r = if d == 0 {
        "0"
    } else if d == 1 {
        "1"
    } else if d == 2 {
        "2"
    } else if d == 3 {
        "3"
    } else if d == 4 {
        "4"
    } else if d == 5 {
        "5"
    } else if d == 6 {
        "6"
    } else if d == 7 {
        "7"
    } else if d == 8 {
        "8"
    } else {
        "9"
    };
    assert(r@ =~= seq![digit_char(d as nat)]);
    r
}

/// Writes `n` in decimal at the end of `text`.
pub fn push_decimal(text: &mut String, n: usize)
    ensures
        final(text)@ == old(text)@ + decimal(n as nat),
    decreases n,
{
    if n >= 10 {
        push_decimal(text, n / 10);
    }
    text.append(digit_text(n % 10));
    assert(text@ =~= old(text)@ + decimal(n as nat));
}

/// The name of the slot at `position` of an array field whose name is
/// `base`: the name, a blank, and the position in decimal.
pub open spec fn slot_name(base: Seq<char>, position: nat) -> Seq<char> {
    base + seq![' '] + decimal(position)
}

/// Appends the position of a slot to the name of its field. Positions of ten
/// and more are written with all their digits.
pub fn with_position(base: String, position: usize) -> (r: String)
    ensures
        r@ == slot_name(base@, position as nat),
{
    proof {
        reveal_strlit(" ");
    }
    let mut name = base;
    name.append(" ");
    assert(name@ =~= base@ + seq![' ']);
    push_decimal(&mut name, position);
    name
}

/// The name given where neither the device nor the usage tables have one.
pub open spec fn fallback_name() -> Seq<char> {
    "Unk"@
}

/// The name of a field or a slot: the string of the device where it has one,
/// else the name from the usage tables, else nothing.
pub open spec fn chosen_name(device: Option<Seq<char>>, table: Option<Seq<char>>) -> Option<
    Seq<char>,
> {
    match device {
        Some(text) => Some(text),
        None => table,
    }
}

/// The name of a field or a slot with nothing left open: `chosen_name`, or
/// the fallback where that has none.
pub open spec fn settled_name(device: Option<Seq<char>>, table: Option<Seq<char>>) -> Seq<char> {
    match chosen_name(device, table) {
        Some(text) => text,
        None => fallback_name(),
    }
}

/// What the device holds for an optional string index.
pub open spec fn device_text(strings: Map<u32, Seq<char>>, index: Option<u32>) -> Option<
    Seq<char>,
> {
    match index {
        Some(i) => string_at(strings, i),
        None => None,
    }
}

/// Picks between the string of the device and the name from the usage
/// tables: the device's own string comes first.
pub fn choose_name(device: Option<String>, table: Option<String>) -> (r: Option<String>)
    ensures
        text_of(r) == chosen_name(text_of(device), text_of(table)),
{
    match device {
        Some(text) => Some(text),
        None => table,
    }
}

/// The string that the device holds under an optional index.
pub fn device_string(strings: &DeviceStrings, index: Option<u32>) -> (r: Option<String>)
    ensures
        text_of(r) == device_text(strings@, index),
{
    match index {
        Some(i) => strings.lookup(i),
        None => None,
    }
}

/// The name of a field with the string index `index` and the usage `usage`:
/// the device's string under that index, else the name that the usage tables
/// give the usage.
pub fn indexed_name(index: Option<u32>, strings: &DeviceStrings, usage: Usage) -> (r: Option<
    String,
>)
    ensures
        text_of(r) == chosen_name(
            device_text(strings@, index),
            entry_name(usage_table_entry(usage.page, usage.id)),
        ),
{
    let device = device_string(strings, index);
    let table = match table_entry(usage.page, usage.id) {
        Some(e) => Some(e.1),
        None => None,
    };
    choose_name(device, table)
}

/// The name of the collection that a field belongs to, from the string index
/// and the usage of that collection; nothing where the field is in none.
pub fn parent_name(collection: Option<(Option<u32>, Usage)>, strings: &DeviceStrings) -> (r:
    Option<String>)
    ensures
        text_of(r) == match collection {
            Some(c) => chosen_name(
                device_text(strings@, c.0),
                entry_name(usage_table_entry(c.1.page, c.1.id)),
            ),
            None => None,
        },
{
    match collection {
        Some(c) => indexed_name(c.0, strings, c.1),
        None => None,
    }
}

} // verus!
