//! Item definitions.
//!
//! Item records are authored in a resource file as attribute lists; the
//! interpretation of those attributes - numeric parsing, the rarity
//! code table, and the defaults for missing or degenerate fields - is
//! decided here.

use vstd::prelude::*;

use crate::texture::Texture;

verus! {

/// Item rarity classes, in ascending order of the authored codes.
#[derive(Clone, Copy, Debug, PartialEq, Eq, Structural)]
pub enum ItemRarity {
    Common,
    Uncommon,
    Rare,
    Epic,
    Legendary,
}

/// The rarity of an authored code: codes zero to four in order, and
/// anything else the common class.
pub fn rarity_from_code(code: u32) -> (r: ItemRarity)
    ensures
        r == (if code == 1 {
            ItemRarity::Uncommon
        } else if code == 2 {
            ItemRarity::Rare
        } else if code == 3 {
            ItemRarity::Epic
        } else if code == 4 {
            ItemRarity::Legendary
        } else {
            ItemRarity::Common
        }),
{
    match code {
        1 => ItemRarity::Uncommon,
        2 => ItemRarity::Rare,
        3 => ItemRarity::Epic,
        4 => ItemRarity::Legendary,
        _ => ItemRarity::Common,
    }
}

/// The numeric value of a decimal digit string.
pub open spec fn digits_value(s: Seq<u8>) -> int
    decreases s.len(),
{
    if s.len() == 0 {
        0
    } else {
        digits_value(s.drop_last()) * 10 + (s.last() - 0x30)
    }
}

/// Every byte is an ASCII decimal digit.
pub open spec fn all_digits(s: Seq<u8>) -> bool {
    forall|i: int| 0 <= i < s.len() ==> 0x30 <= #[trigger] s[i] <= 0x39
}

/// Parses a base-ten unsigned number: succeeds exactly on non-empty
/// all-digit input whose value fits, yielding that value.
pub fn parse_u32(s: &Vec<u8>) -> (r: Option<u32>)
    ensures
        match r {
            Some(v) => s@.len() > 0 && all_digits(s@) && v == digits_value(s@) && digits_value(s@)
                <= 0xFFFF_FFFF,
            None => s@.len() == 0 || !all_digits(s@) || digits_value(s@) > 0xFFFF_FFFF,
        },
{
    if s.len() == 0 {
        return None;
    }
    let mut acc: u32 = 0;
    let mut i: usize = 0;
    while i < s.len()
        invariant
            0 <= i <= s@.len(),
            acc == digits_value(s@.take(i as int)),
            all_digits(s@.take(i as int)),
            digits_value(s@.take(i as int)) <= 0xFFFF_FFFF,
        decreases s@.len() - i,
    {
        let b = s[i];
        if b < 0x30 || b > 0x39 {
            proof {
                assert(s@.take(i + 1)[i as int] == b);
                assert(!all_digits(s@));
            }
            return None;
        }
        let d: u32 = (b - 0x30) as u32;
        if acc > 0xFFFF_FFFF / 10 || (acc == 0xFFFF_FFFF / 10 && d > 0xFFFF_FFFF % 10) {
            proof {
                assert(s@.take(i + 1).drop_last() =~= s@.take(i as int));
                assert(s@.take(i + 1).last() == s@[i as int]);
                lemma_digits_value_grows(s@, i + 1);
                assert(digits_value(s@.take(i + 1)) > 0xFFFF_FFFF);
            }
            return None;
        }
        acc = acc * 10 + d;
        proof {
            assert(s@.take(i + 1).drop_last() =~= s@.take(i as int));
            assert(s@.take(i + 1).last() == s@[i as int]);
        }
        i += 1;
    }
    proof {
        assert(s@.take(s@.len() as int) =~= s@);
    }
    Some(acc)
}

/// A longer digit prefix never has a smaller value.
proof fn lemma_digits_value_grows(s: Seq<u8>, n: int)
    requires
        0 < n <= s.len(),
        all_digits(s.take(n)),
    ensures
        digits_value(s) >= digits_value(s.take(n)) || !all_digits(s),
    decreases s.len() - n,
{
    if n == s.len() {
        assert(s.take(n) =~= s);
    } else {
        if all_digits(s) {
            assert(forall|i: int| 0 <= i < n + 1 ==> s.take(n + 1)[i] == s[i]);
            lemma_digits_value_grows(s, n + 1);
            assert(s.take(n + 1).drop_last() =~= s.take(n));
            assert(s.take(n + 1).last() == s[n]);
            assert(digits_value(s.take(n + 1)) == digits_value(s.take(n)) * 10 + (s[n] - 0x30));
            lemma_digits_value_nonneg(s.take(n));
            assert(digits_value(s.take(n)) * 10 >= digits_value(s.take(n))) by (nonlinear_arith)
                requires digits_value(s.take(n)) >= 0;
        }
    }
}

/// A digit string's value is never negative.
proof fn lemma_digits_value_nonneg(s: Seq<u8>)
    requires
        all_digits(s),
    ensures
        digits_value(s) >= 0,
    decreases s.len(),
{
    if s.len() > 0 {
        assert(forall|i: int| 0 <= i < s.len() - 1 ==> s.drop_last()[i] == s[i]);
        lemma_digits_value_nonneg(s.drop_last());
        assert(digits_value(s.drop_last()) * 10 >= 0) by (nonlinear_arith)
            requires digits_value(s.drop_last()) >= 0;
    }
}

/// The identity of an item record: its index in the loaded item table.
#[derive(Clone, Copy, Debug, PartialEq, Eq, Structural, Default)]
pub struct ItemId(pub usize);

/// One item record.
#[derive(Debug)]
pub struct Item {
    pub name: String,
    pub texture: Option<Texture>,
    pub rarity: ItemRarity,
    pub stack_size: u32,
}

/// Assembles an item from its authored attributes: a missing name
/// falls back to the unnamed label, the rarity code maps through the
/// rarity table, and a missing or zero stack size becomes one.
pub fn build_item(
    name: Option<String>,
    texture: Option<Texture>,
    rarity_code: u32,
    stack_size: u32,
) -> (r: Item)
    ensures
        match name {
            Some(n) => r.name@ == n@,
            None => r.name@ == "Unnamed Item"@,
        },
        r.texture == texture,
        r.rarity == (if rarity_code == 1 {
            ItemRarity::Uncommon
        } else if rarity_code == 2 {
            ItemRarity::Rare
        } else if rarity_code == 3 {
            ItemRarity::Epic
        } else if rarity_code == 4 {
            ItemRarity::Legendary
        } else {
            ItemRarity::Common
        }),
        r.stack_size == (if stack_size == 0 {
            1u32
        } else {
            stack_size
        }),
{
    let name = match name {
        Some(n) => n,
        None => String::from_str("Unnamed Item"),
    };
    let rarity = rarity_from_code(rarity_code);
    let stack_size = if stack_size == 0 {
        1
    } else {
        stack_size
    };
    Item { name, texture, rarity, stack_size }
}

} // verus!
