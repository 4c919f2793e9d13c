//! The names that the transformed module shares with its host.

use vstd::prelude::*;
use vstd::string::*;

verus! {

/// The module name under which the host provides its callbacks.
pub const HOST_MODULE: &'static str = "wasm_guardian";

/// The import that is called with the page delta before each `memory.grow`.
pub const ON_GROW: &'static str = "on_grow";

/// The import that is called with the number of the global before each
/// reported `global.set`.
pub const ON_GLOBAL_SET: &'static str = "on_global_set";

/// The export of the global that holds the address of the dirty array.
pub const DIRTY_FLAGS: &'static str = "wg_dirty_flags";

/// What the export of every published global begins with.
pub const GLOBAL_PREFIX: &'static str = "wg_global_";

/// The decimal digit for `d`, which is below ten.
pub open spec fn digit(d: nat) -> char {
    if d == 0 {
        '0'
    } else if d == 1 {
        '1'
    } else if d == 2 {
        '2'
    } else if d == 3 {
        '3'
    } else if d == 4 {
        '4'
    } else if d == 5 {
        '5'
    } else if d == 6 {
        '6'
    } else if d == 7 {
        '7'
    } else if d == 8 {
        '8'
    } else {
        '9'
    }
}

/// `n` in decimal, without leading zeros.
pub open spec fn decimal(n: nat) -> Seq<char>
    decreases n,
{
    if n < 10 {
        seq![digit(n)]
    } else {
        decimal(n / 10).push(digit(n % 10))
    }
}

/// The name under which the global with this number is exported.
pub open spec fn global_export_name(number: nat) -> Seq<char> {
    GLOBAL_PREFIX@ + decimal(number)
}

/// A decimal digit as text.
fn digit_text(d: usize) -> (text: &'static str)
    requires
        d < 10,
    ensures
        text@ == seq![digit(d as nat)],
{
    proof {
        reveal_strlit("0");
        reveal_strlit("1");
        reveal_strlit("2");
        reveal_strlit("3");
        reveal_strlit("4");
        reveal_strlit("5");
        reveal_strlit("6");
        reveal_strlit("7");
        reveal_strlit("8");
        reveal_strlit("9");
    }
    let text = if d == 0 {
        "0"
    } else if d == 1 {
        "1"
    } else if d == 2 {
        "2"
    } else if d == 3 {
        "3"
    } else if d == 4 {
        "4"
    } else if d == 5 {
        "5"
    } else if d == 6 {
        "6"
    } else if d == 7 {
        "7"
    } else if d == 8 {
        "8"
    } else {
        "9"
    };
    assert(text@ =~= seq![digit(d as nat)]);
    text
}

/// Appends `n` in decimal to `text`.
pub fn append_decimal(text: &mut String, n: usize)
    ensures
        final(text)@ == old(text)@ + decimal(n as nat),
    decreases n,
{
    if n >= 10 {
        append_decimal(text, n / 10);
    }
    text.append(digit_text(n % 10));
    assert(text@ =~= old(text)@ + decimal(n as nat));
}

/// The name under which the global with this number is exported:
/// `wg_global_` and the number in decimal.
pub fn export_name_of_global(number: usize) -> (name: String)
    ensures
        name@ == global_export_name(number as nat),
{
    let mut name = String::from_str(GLOBAL_PREFIX);
    append_decimal(&mut name, number);
    name
}

/// A decimal has at least one digit, and more than one from ten on.
pub proof fn lemma_decimal_len(n: nat)
    ensures
        decimal(n).len() >= 1,
        n >= 10 ==> decimal(n).len() >= 2,
    decreases n,
{
    if n >= 10 {
        lemma_decimal_len(n / 10);
    }
}

/// Different numbers have different decimals.
pub proof fn lemma_decimal_injective(a: nat, b: nat)
    requires
        decimal(a) == decimal(b),
    ensures
        a == b,
    decreases a,
{
    lemma_decimal_len(a);
    lemma_decimal_len(b);
    if a < 10 {
        assert(decimal(a)[0] == digit(a));
        assert(decimal(b)[0] == digit(b));
    } else {
        assert(decimal(a).drop_last() =~= decimal(a / 10));
        assert(decimal(b).drop_last() =~= decimal(b / 10));
        assert(decimal(a).last() == digit(a % 10));
        assert(decimal(b).last() == digit(b % 10));
        lemma_decimal_injective(a / 10, b / 10);
    }
}

/// Globals with different numbers are exported under different names.
pub proof fn lemma_export_names_differ(a: nat, b: nat)
    requires
        global_export_name(a) == global_export_name(b),
    ensures
        a == b,
{
    let prefix = GLOBAL_PREFIX@;
    assert(global_export_name(a).subrange(prefix.len() as int, global_export_name(a).len() as int)
        =~= decimal(a));
    assert(global_export_name(b).subrange(prefix.len() as int, global_export_name(b).len() as int)
        =~= decimal(b));
    lemma_decimal_injective(a, b);
}

/// The export of the global for the dirty array has the name of no
/// published global.
pub proof fn lemma_flags_name_is_no_global_name(number: nat)
    ensures
        DIRTY_FLAGS@ != global_export_name(number),
{
    reveal_strlit("wg_dirty_flags");
    reveal_strlit("wg_global_");
    assert(DIRTY_FLAGS@[3] == 'd');
    assert(global_export_name(number)[3] == GLOBAL_PREFIX@[3]);
    assert(GLOBAL_PREFIX@[3] == 'g');
}

} // verus!
