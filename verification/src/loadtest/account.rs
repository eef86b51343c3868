//! The accounts and characters that bots play with.

use crate::constants::MAX_STACK_AMOUNT;
use crate::entities::inventory::InventorySlot;
use crate::entities::skills::SkillType;
use crate::loadtest::config::{CharacterKit, Inventory, Stack};
use crate::text::{eq_ignore_ascii_case, push_char, same_ignoring_case};
use std::collections::HashMap;
use vstd::prelude::*;

verus! {

broadcast use vstd::std_specs::hash::group_hash_axioms;

/// What proves to the site who asks.
#[derive(Debug)]
pub struct Session {
    pub token: String,
}

#[derive(Debug, Clone, Copy, PartialEq, Eq, Structural)]
pub struct CharacterId(pub i32);

#[derive(Debug)]
pub struct Character {
    pub id: CharacterId,
    pub name: String,
}

/// The highest number that a bot's name can hold: three letters of 26.
pub const MAX_BOT_INDEX: usize = 17575;

/// The `i`th small letter.
pub open spec fn small_letter(i: int) -> char {
    ('a' as u32 + i) as char
}

/// The `i`th capital letter.
pub open spec fn capital_letter(i: int) -> char {
    ('A' as u32 + i) as char
}

/// The name of the bot with this number: the prefix, a space, and the number as three letters
/// for digits, the first one a capital.
pub open spec fn name_of(prefix: Seq<char>, index: int) -> Seq<char> {
    prefix + seq![
        ' ',
        capital_letter(index / 676),
        small_letter(index / 26 % 26),
        small_letter(index % 26),
    ]
}

/// The name of the bot with this number: letters and a single space only, as the site asks for.
pub fn bot_name(prefix: &str, index: usize) -> (name: String)
    requires
        index <= MAX_BOT_INDEX,
    ensures
        name@ == name_of(prefix@, index as int),
{
    let first: u8 = 65u8 + (index / 676) as u8;
    let second: u8 = 97u8 + (index / 26 % 26) as u8;
    let third: u8 = 97u8 + (index % 26) as u8;
    let mut name: String = prefix.to_owned();
    push_char(&mut name, ' ');
    push_char(&mut name, first as char);
    push_char(&mut name, second as char);
    push_char(&mut name, third as char);
    assert(name@ =~= name_of(prefix@, index as int));
    name
}

/// Every bot has a name of its own, even where the case of letters is not told apart.
pub proof fn law_bot_names_differ(prefix: Seq<char>, i: int, j: int)
    requires
        0 <= i <= MAX_BOT_INDEX,
        0 <= j <= MAX_BOT_INDEX,
        same_ignoring_case(name_of(prefix, i), name_of(prefix, j)),
    ensures
        i == j,
{
    let a = name_of(prefix, i);
    let b = name_of(prefix, j);
    let n = prefix.len() as int;
    assert(a[n + 1] == capital_letter(i / 676) && b[n + 1] == capital_letter(j / 676));
    assert(a[n + 2] == small_letter(i / 26 % 26) && b[n + 2] == small_letter(j / 26 % 26));
    assert(a[n + 3] == small_letter(i % 26) && b[n + 3] == small_letter(j % 26));
    assert(i / 26 == 26 * (i / 676) + i / 26 % 26);
    assert(j / 26 == 26 * (j / 676) + j / 26 % 26);
}

/// A generated name holds only letters and spaces where the prefix does, and ends in a letter.
pub proof fn law_bot_names_are_letters(prefix: Seq<char>, index: int)
    requires
        0 <= index <= MAX_BOT_INDEX,
    ensures
        ({
            let name = name_of(prefix, index);
            &&& name.len() == prefix.len() + 4
            &&& name[prefix.len() as int] == ' '
            &&& 'A' <= name[prefix.len() as int + 1] && name[prefix.len() as int + 1] <= 'Z'
            &&& 'a' <= name[prefix.len() as int + 2] && name[prefix.len() as int + 2] <= 'z'
            &&& 'a' <= name.last() && name.last() <= 'z'
        }),
{
}

/// A character of this name is there, however its letters are cased.
pub open spec fn taken(existing: Seq<Character>, name: Seq<char>) -> bool {
    exists|i: int|
        0 <= i < existing.len() && same_ignoring_case((#[trigger] existing[i]).name@, name)
}

/// The names of the first `count` bots that no character has.
pub open spec fn untaken(existing: Seq<Character>, prefix: Seq<char>, count: nat) -> Seq<Seq<char>>
    decreases count,
{
    if count == 0 {
        Seq::empty()
    } else {
        let before = untaken(existing, prefix, (count - 1) as nat);
        let name = name_of(prefix, count - 1);
        if taken(existing, name) {
            before
        } else {
            before.push(name)
        }
    }
}

fn is_taken(existing: &Vec<Character>, name: &String) -> (r: bool)
    ensures
        r == taken(existing@, name@),
{
    let mut i: usize = 0;
    while i < existing.len()
        invariant
            i <= existing.len(),
            forall|j: int|
                0 <= j < i ==> !same_ignoring_case((#[trigger] existing@[j]).name@, name@),
        decreases existing.len() - i,
    {
        if eq_ignore_ascii_case(existing[i].name.as_str(), name.as_str()) {
            return true;
        }
        i += 1;
    }
    false
}

/// The characters that have to be created for there to be `count` bots, in order.
pub fn missing_names(existing: &Vec<Character>, prefix: &str, count: usize) -> (names: Vec<String>)
    requires
        count <= MAX_BOT_INDEX + 1,
    ensures
        names@.len() == untaken(existing@, prefix@, count as nat).len(),
        forall|i: int|
            0 <= i < names@.len() ==> (#[trigger] names@[i])@ == untaken(
                existing@,
                prefix@,
                count as nat,
            )[i],
{
    let mut names: Vec<String> = Vec::new();
    let mut index: usize = 0;
    while index < count
        invariant
            index <= count <= MAX_BOT_INDEX + 1,
            names@.len() == untaken(existing@, prefix@, index as nat).len(),
            forall|i: int|
                0 <= i < names@.len() ==> (#[trigger] names@[i])@ == untaken(
                    existing@,
                    prefix@,
                    index as nat,
                )[i],
        decreases count - index,
    {
        let name = bot_name(prefix, index);
        if !is_taken(existing, &name) {
            names.push(name);
        }
        index += 1;
    }
    names
}

/// Once the missing characters are there, none is missing.
pub proof fn law_creating_the_missing_completes_them(
    existing: Seq<Character>,
    later: Seq<Character>,
    prefix: Seq<char>,
    count: nat,
)
    requires
        forall|name: Seq<char>| #[trigger]
            taken(existing, name) ==> taken(later, name),
        forall|i: int|
            0 <= i < untaken(existing, prefix, count).len() ==> taken(
                later,
                #[trigger] untaken(existing, prefix, count)[i],
            ),
    ensures
        untaken(later, prefix, count).len() == 0,
    decreases count,
{
    if count > 0 {
        let less = (count - 1) as nat;
        let before = untaken(existing, prefix, less);
        let all = untaken(existing, prefix, count);
        let name = name_of(prefix, count - 1);
        assert forall|i: int| 0 <= i < before.len() implies taken(later, #[trigger] before[i]) by {
            assert(all[i] == before[i]);
        }
        law_creating_the_missing_completes_them(existing, later, prefix, less);
        if !taken(existing, name) {
            assert(all[before.len() as int] == name);
        }
        assert(taken(later, name));
    }
}

/// An item as it is stored, with what is in it.
#[derive(Debug)]
pub struct StoredItemRecord {
    pub item_id: u16,
    pub amount: u8,
    pub content: Option<Vec<StoredItemRecord>>,
}

/// How much a stack holds at most.
pub open spec fn capped(amount: u8) -> u8 {
    if amount < MAX_STACK_AMOUNT {
        amount
    } else {
        MAX_STACK_AMOUNT
    }
}

/// The stacks of the first `n` lines of a kit, each as its item and its amount.
pub open spec fn stacks_of(contents: Seq<Stack>, n: nat) -> Seq<(u16, u8)>
    decreases n,
{
    if n == 0 {
        Seq::empty()
    } else {
        let s = contents[n - 1];
        stacks_of(contents, (n - 1) as nat) + Seq::new(
            s.stacks as nat,
            |i: int| (s.item, capped(s.amount)),
        )
    }
}

/// The records are these stacks, with nothing in them.
pub open spec fn holds_stacks(records: Seq<StoredItemRecord>, stacks: Seq<(u16, u8)>) -> bool {
    records.len() == stacks.len() && forall|i: int|
        0 <= i < records.len() ==> (#[trigger] records[i]).item_id == stacks[i].0
            && records[i].amount == stacks[i].1 && records[i].content is None
}

fn push_stacks(records: &mut Vec<StoredItemRecord>, stack: &Stack, Ghost(before): Ghost<Seq<(u16, u8)>>)
    requires
        holds_stacks(old(records)@, before),
    ensures
        holds_stacks(
            final(records)@,
            before + Seq::new(stack.stacks as nat, |i: int| (stack.item, capped(stack.amount))),
        ),
{
    let amount: u8 = if stack.amount < MAX_STACK_AMOUNT {
        stack.amount
    } else {
        MAX_STACK_AMOUNT
    };
    let mut k: u8 = 0;
    assert(before + Seq::new(0, |i: int| (stack.item, capped(stack.amount))) =~= before);
    while k < stack.stacks
        invariant
            k <= stack.stacks,
            amount == capped(stack.amount),
            holds_stacks(
                records@,
                before + Seq::new(k as nat, |i: int| (stack.item, capped(stack.amount))),
            ),
        decreases stack.stacks - k,
    {
        records.push(StoredItemRecord { item_id: stack.item, amount, content: None });
        k += 1;
    }
}

/// What a kit's character carries, by slot: a backpack with the stacks, none above what a stack
/// holds, and a weapon.
pub fn build_inventory(kit: &Inventory) -> (slots: HashMap<u8, StoredItemRecord>)
    ensures
        slots@.dom() == set![InventorySlot::Backpack.id(), InventorySlot::RightHand.id()],
        ({
            let backpack = slots@[InventorySlot::Backpack.id()];
            &&& backpack.item_id == kit.backpack
            &&& backpack.amount == 1
            &&& backpack.content matches Some(content) && holds_stacks(
                content@,
                stacks_of(kit.contents@, kit.contents@.len()),
            )
        }),
        slots@[InventorySlot::RightHand.id()] == (StoredItemRecord {
            item_id: kit.weapon,
            amount: 1,
            content: None,
        }),
{
    let mut content: Vec<StoredItemRecord> = Vec::new();
    let mut i: usize = 0;
    while i < kit.contents.len()
        invariant
            i <= kit.contents.len(),
            holds_stacks(content@, stacks_of(kit.contents@, i as nat)),
        decreases kit.contents.len() - i,
    {
        push_stacks(&mut content, &kit.contents[i], Ghost(stacks_of(kit.contents@, i as nat)));
        i += 1;
    }
    let mut slots: HashMap<u8, StoredItemRecord> = HashMap::new();
    slots.insert(
        InventorySlot::Backpack.as_id(),
        StoredItemRecord { item_id: kit.backpack, amount: 1, content: Some(content) },
    );
    slots.insert(
        InventorySlot::RightHand.as_id(),
        StoredItemRecord { item_id: kit.weapon, amount: 1, content: None },
    );
    assert(slots@.dom() =~= set![InventorySlot::Backpack.id(), InventorySlot::RightHand.id()]);
    slots
}

/// The numbers and values of a character's skills, its level first.
pub fn skill_rows(character: &CharacterKit) -> (rows: Vec<(i16, i16)>)
    ensures
        rows@ == seq![(SkillType::Level.id() as i16, character.level)] + Seq::new(
            character.skills@.len(),
            |i: int| (character.skills@[i].0.id() as i16, character.skills@[i].1),
        ),
{
    let mut rows: Vec<(i16, i16)> = Vec::new();
    rows.push((SkillType::Level.as_id() as i16, character.level));
    let mut i: usize = 0;
    while i < character.skills.len()
        invariant
            i <= character.skills.len(),
            rows@ =~= seq![(SkillType::Level.id() as i16, character.level)] + Seq::new(
                i as nat,
                |i: int| (character.skills@[i].0.id() as i16, character.skills@[i].1),
            ),
        decreases character.skills.len() - i,
    {
        let (skill, value) = character.skills[i];
        rows.push((skill.as_id() as i16, value));
        i += 1;
    }
    rows
}

/// Bots are named in the order of the alphabet: the next name is the same but for the last letter,
/// which is the next one, or begins anew where that was the last, with the letter before it moved
/// on. The first is named with the first letter three times.
pub proof fn law_names_count_through_the_alphabet(prefix: Seq<char>, i: int)
    requires
        0 <= i < MAX_BOT_INDEX,
    ensures
        ({
            let a = name_of(prefix, i);
            let b = name_of(prefix, i + 1);
            let n = prefix.len() as int;
            let first = name_of(prefix, 0);
            &&& first[n + 1] == 'A' && first[n + 2] == 'a' && first[n + 3] == 'a'
            &&& b.take(n + 1) == a.take(n + 1)
            &&& a[n + 3] != 'z' ==> b[n + 3] as int == a[n + 3] as int + 1 && b[n + 2] == a[n + 2]
                && b[n + 1] == a[n + 1]
            &&& a[n + 3] == 'z' && a[n + 2] != 'z' ==> b[n + 3] == 'a' && b[n + 2] as int == a[n
                + 2] as int + 1 && b[n + 1] == a[n + 1]
            &&& a[n + 3] == 'z' && a[n + 2] == 'z' ==> b[n + 3] == 'a' && b[n + 2] == 'a' && b[n
                + 1] as int == a[n + 1] as int + 1
        }),
{
    let a = name_of(prefix, i);
    let b = name_of(prefix, i + 1);
    let n = prefix.len() as int;
    assert(a.take(n + 1) =~= b.take(n + 1));
    assert(i / 26 == 26 * (i / 676) + i / 26 % 26);
    assert((i + 1) / 26 == 26 * ((i + 1) / 676) + (i + 1) / 26 % 26);
}

/// The names that are missing are just those of the first bots that no character has, however its
/// letters are cased.
pub proof fn law_just_the_untaken_names_are_missing(
    existing: Seq<Character>,
    prefix: Seq<char>,
    count: nat,
    i: int,
)
    requires
        0 <= i < count,
    ensures
        (forall|k: int|
            0 <= k < existing.len() ==> !same_ignoring_case(
                (#[trigger] existing[k]).name@,
                name_of(prefix, i),
            )) ==> untaken(existing, prefix, count).contains(name_of(prefix, i)),
        forall|j: int, k: int|
            0 <= j < untaken(existing, prefix, count).len() && 0 <= k < existing.len()
                ==> !same_ignoring_case(
                (#[trigger] existing[k]).name@,
                #[trigger] untaken(existing, prefix, count)[j],
            ),
    decreases count,
{
    let before = untaken(existing, prefix, (count - 1) as nat);
    let after = untaken(existing, prefix, count);
    let name = name_of(prefix, count - 1);
    if count > 1 {
        law_just_the_untaken_names_are_missing(
            existing,
            prefix,
            (count - 1) as nat,
            if i < count - 1 {
                i
            } else {
                0
            },
        );
    }
    if !taken(existing, name_of(prefix, i)) {
        if i == count - 1 {
            assert(after[before.len() as int] == name);
        } else {
            assert(after[before.index_of(name_of(prefix, i))] == name_of(prefix, i));
        }
    }
    assert forall|j: int, k: int| 0 <= j < after.len() && 0 <= k < existing.len() implies !same_ignoring_case(
        (#[trigger] existing[k]).name@,
        #[trigger] after[j],
    ) by {
        if j < before.len() {
            assert(after[j] == before[j]);
        }
    }
}

/// How many of an item some stacks hold.
pub open spec fn amount_in(stacks: Seq<(u16, u8)>, item: u16) -> int
    decreases stacks.len(),
{
    if stacks.len() == 0 {
        0
    } else {
        amount_in(stacks.drop_last(), item) + (if stacks.last().0 == item {
            stacks.last().1 as int
        } else {
            0
        })
    }
}

/// A kit holds as many stacks of each item as it lists, none higher than a stack can be: one entry
/// more adds its stacks at the end and nothing else.
pub proof fn law_a_kit_holds_the_stacks_it_lists(contents: Seq<Stack>, n: nat, item: u16)
    requires
        0 < n <= contents.len(),
    ensures
        ({
            let s = contents[n - 1];
            let most: int = if s.amount > 100 {
                100
            } else {
                s.amount as int
            };
            &&& stacks_of(contents, n).len() == stacks_of(contents, (n - 1) as nat).len() + s.stacks
            &&& amount_in(stacks_of(contents, n), item) == amount_in(
                stacks_of(contents, (n - 1) as nat),
                item,
            ) + (if s.item == item {
                s.stacks * most
            } else {
                0
            })
        }),
{
    let s = contents[n - 1];
    lemma_amount_repeated(
        stacks_of(contents, (n - 1) as nat),
        s.item,
        capped(s.amount),
        s.stacks as nat,
        item,
    );
}

proof fn lemma_amount_repeated(stacks: Seq<(u16, u8)>, of: u16, amount: u8, n: nat, item: u16)
    ensures
        amount_in(stacks + Seq::new(n, |i: int| (of, amount)), item) == amount_in(stacks, item) + (
        if of == item {
            n * amount
        } else {
            0
        }),
    decreases n,
{
    let more = Seq::new(n, |i: int| (of, amount));
    if n == 0 {
        assert(stacks + more =~= stacks);
    } else {
        lemma_amount_repeated(stacks, of, amount, (n - 1) as nat, item);
        assert((stacks + more).drop_last() =~= stacks + Seq::new(
            (n - 1) as nat,
            |i: int| (of, amount),
        ));
        assert(n * amount == (n - 1) * amount + amount) by (nonlinear_arith);
    }
}

} // verus!
