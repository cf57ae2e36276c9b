//! The adapter service: which HCI adapter it serves, and the D-Bus object
//! paths it exports for it.
use vstd::prelude::*;

use crate::decimal::{
    all_digits, chars_of, digits_value, i32_text, lemma_i32_text_is_plain_decimal, lemma_parse_decimal,
    lemma_parse_prints, parse_i32_from, spec_i32_text, spec_parse_i32,
};

verus! {

/// The flag that names the adapter: `--hci=`.
pub open spec fn hci_flag() -> Seq<char> {
    seq!['-', '-', 'h', 'c', 'i', '=']
}

/// The adapter that one argument names: the `i32` after a leading `--hci=`,
/// when the rest of the argument parses as one.
pub open spec fn hci_value(arg: Seq<char>) -> Option<i32> {
    if arg.len() >= 6 && arg.take(6) == hci_flag() {
        spec_parse_i32(arg.skip(6))
    } else {
        None
    }
}

/// The adapter that a command line names: that of the first argument that
/// names one, or adapter 0 where none does.
pub open spec fn spec_adapter_index(args: Seq<Seq<char>>) -> i32
    decreases args.len(),
{
    if args.len() == 0 {
        0
    } else {
        match hci_value(args[0]) {
            Some(n) => n,
            None => spec_adapter_index(args.drop_first()),
        }
    }
}

/// The texts of a list of arguments.
pub open spec fn arg_texts(args: Seq<String>) -> Seq<Seq<char>> {
    args.map_values(|a: String| a@)
}

/// Whether `arg` names an adapter, and which.
fn adapter_of_arg(arg: &String) -> (r: Option<i32>)
    ensures
        r == hci_value(arg@),
{
    let chars = chars_of(arg.as_str());
    if chars.len() >= 6 && chars[0] == '-' && chars[1] == '-' && chars[2] == 'h' && chars[3] == 'c'
        && chars[4] == 'i' && chars[5] == '=' {
        assert(chars@.take(6) =~= hci_flag());
        assert(chars@.subrange(6, chars@.len() as int) =~= chars@.skip(6));
        parse_i32_from(&chars, 6)
    } else {
        assert(chars@.len() >= 6 ==> chars@.take(6) != hci_flag()) by {
            if chars@.len() >= 6 && chars@.take(6) == hci_flag() {
                assert(chars@[0] == chars@.take(6)[0]);
                assert(chars@[1] == chars@.take(6)[1]);
                assert(chars@[2] == chars@.take(6)[2]);
                assert(chars@[3] == chars@.take(6)[3]);
                assert(chars@[4] == chars@.take(6)[4]);
                assert(chars@[5] == chars@.take(6)[5]);
            }
        }
        None
    }
}

/// Checks the command line for the target adapter (`--hci=N`); where no
/// argument sets one, the adapter is 0.
pub fn get_adapter_index(args: &Vec<String>) -> (r: i32)
    ensures
        r == spec_adapter_index(arg_texts(args@)),
{
    let ghost texts = arg_texts(args@);
    let mut i: usize = 0;
    assert(texts.skip(0) =~= texts);
    while i < args.len()
        invariant
            i <= args.len(),
            texts == arg_texts(args@),
            spec_adapter_index(texts) == spec_adapter_index(texts.skip(i as int)),
        decreases args.len() - i,
    {
        let found = adapter_of_arg(&args[i]);
        assert(texts.skip(i as int)[0] == args@[i as int]@);
        assert(texts.skip(i as int).drop_first() =~= texts.skip(i + 1));
        match found {
            Some(n) => {
                return n;
            },
            None => {},
        }
        i = i + 1;
    }
    assert(texts.skip(i as int) =~= Seq::<Seq<char>>::empty());
    0
}

/// An argument `--hci=` followed by the printed form of `n` selects adapter
/// `n`, whatever follows it on the command line.
pub proof fn lemma_flag_selects_printed_index(n: i32, rest: Seq<Seq<char>>)
    ensures
        spec_adapter_index(seq![hci_flag() + spec_i32_text(n)] + rest) == n,
{
    let arg = hci_flag() + spec_i32_text(n);
    let args = seq![arg] + rest;
    assert(args[0] == arg);
    assert(arg.take(6) =~= hci_flag());
    assert(arg.skip(6) =~= spec_i32_text(n));
    lemma_parse_prints(n);
}

/// An argument `--hci=` followed by the plain decimal digits of a number
/// that fits in an `i32` selects that number, whatever follows it.
pub proof fn lemma_flag_with_digits_selects_number(digits: Seq<char>, rest: Seq<Seq<char>>)
    requires
        digits.len() > 0,
        all_digits(digits),
        digits_value(digits) <= i32::MAX,
    ensures
        spec_adapter_index(seq![hci_flag() + digits] + rest) == digits_value(digits) as i32,
{
    let arg = hci_flag() + digits;
    let args = seq![arg] + rest;
    assert(args[0] == arg);
    assert(arg.take(6) =~= hci_flag());
    assert(arg.skip(6) =~= digits);
    lemma_parse_decimal(digits);
}

/// Arguments that name no adapter before the first one that does are
/// skipped; the first that names one decides.
pub proof fn lemma_first_flag_wins(skipped: Seq<Seq<char>>, rest: Seq<Seq<char>>)
    requires
        forall|i: int| 0 <= i < skipped.len() ==> hci_value(#[trigger] skipped[i]) is None,
    ensures
        spec_adapter_index(skipped + rest) == spec_adapter_index(rest),
    decreases skipped.len(),
{
    if skipped.len() > 0 {
        assert((skipped + rest)[0] == skipped[0]);
        assert((skipped + rest).drop_first() =~= skipped.drop_first() + rest);
        assert forall|i: int| 0 <= i < skipped.drop_first().len() implies hci_value(
            #[trigger] skipped.drop_first()[i],
        ) is None by {
            assert(skipped.drop_first()[i] == skipped[i + 1]);
        }
        lemma_first_flag_wins(skipped.drop_first(), rest);
    } else {
        assert(skipped + rest =~= rest);
    }
}

/// The D-Bus object path under which the service exports the interface
/// `name` of adapter `idx`: `/org/chromium/bluetooth/hci<idx>/<name>`.
pub open spec fn spec_object_name(idx: i32, name: Seq<char>) -> Seq<char> {
    "/org/chromium/bluetooth/hci"@ + spec_i32_text(idx) + seq!['/'] + name
}

/// The object path of interface `name` of adapter `idx` is
/// `/org/chromium/bluetooth/hci`, then a text with no `/` in it that parses
/// back to `idx`, then `/`, then `name`: distinct adapters get distinct
/// paths.
pub proof fn lemma_object_name_names_adapter(idx: i32, name: Seq<char>)
    ensures
        ({
            let p = spec_object_name(idx, name);
            &&& p.take(27) == "/org/chromium/bluetooth/hci"@
            &&& exists|k: int|
                27 < k < p.len() && p[k] == '/' && (forall|j: int|
                    27 <= j < k ==> #[trigger] p[j] != '/') && spec_parse_i32(p.subrange(27, k))
                    == Some(idx) && p.skip(k + 1) == name
        }),
{
    reveal_strlit("/org/chromium/bluetooth/hci");
    let prefix = "/org/chromium/bluetooth/hci"@;
    let t = spec_i32_text(idx);
    let p = spec_object_name(idx, name);
    lemma_parse_prints(idx);
    lemma_i32_text_is_plain_decimal(idx);
    assert(prefix.len() == 27);
    assert(p.take(27) =~= prefix);
    let k: int = 27 + t.len() as int;
    assert(p.subrange(27, k) =~= t);
    assert(p[k] == '/');
    assert(p.skip(k + 1) =~= name);
    assert forall|j: int| 27 <= j < k implies #[trigger] p[j] != '/' by {
        assert(p[j] == t[j - 27]);
        if idx < 0 && j > 27 {
            assert(t.drop_first()[j - 28] == t[j - 27]);
        }
    }
}

/// The D-Bus object path of the interface `name` of adapter `idx`.
pub fn make_object_name(idx: i32, name: &str) -> (r: String)
    ensures
        r@ == spec_object_name(idx, name@),
{
    let mut out = String::new();
    out.append("/org/chromium/bluetooth/hci");
    let number = i32_text(idx);
    out.append(number.as_str());
    out.append("/");
    out.append(name);
    proof {
        reveal_strlit("/");
        assert(out@ =~= spec_object_name(idx, name@));
    }
    out
}

} // verus!
