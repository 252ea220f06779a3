//! What holds of key names and of key bindings as they are written in the settings.

use crate::config::{
    key_part, keysym_of, last_key, lowered_parts, names_part, parsed_keys, KeyPart,
};
use crate::text::{ascii_lower, ascii_lowered, lower_case, split_on};
use vstd::prelude::*;
use vstd::utf8::is_ascii_chars;

verus! {

/// Two names of the same key, in lower case.
pub open spec fn aliases(a: Seq<char>, b: Seq<char>) -> bool {
    ||| (a == "return"@ || a == "enter"@) && (b == "return"@ || b == "enter"@)
    ||| (a == "escape"@ || a == "esc"@) && (b == "escape"@ || b == "esc"@)
}

/// A name of a single character with an ASCII letter in lower case; any other name as
/// it is.
pub open spec fn letter_lowered(name: Seq<char>) -> Seq<char> {
    if name.len() == 1 {
        ascii_lowered(name)
    } else {
        name
    }
}

/// A single character is none of the longer names.
proof fn lemma_single(name: Seq<char>)
    requires
        name.len() == 1,
    ensures
        keysym_of(name) == (if '0' <= name[0] <= '9' || 'a' <= ascii_lower(name[0]) <= 'z' {
            Some(ascii_lower(name[0]) as u32)
        } else {
            None
        }),
{
    reveal_strlit("return");
    reveal_strlit("enter");
    reveal_strlit("escape");
    reveal_strlit("esc");
    reveal_strlit("tab");
    reveal_strlit("backspace");
    reveal_strlit("space");
    reveal_strlit("left");
    reveal_strlit("up");
    reveal_strlit("right");
    reveal_strlit("down");
    reveal_strlit("delete");
    reveal_strlit("home");
    reveal_strlit("end");
    reveal_strlit("f1");
    reveal_strlit("f2");
    reveal_strlit("f3");
    reveal_strlit("f4");
    reveal_strlit("f5");
    reveal_strlit("f6");
    reveal_strlit("f7");
    reveal_strlit("f8");
    reveal_strlit("f9");
    reveal_strlit("f10");
    reveal_strlit("f11");
    reveal_strlit("f12");
}

/// No two keys share a keysym: names that stand for the same one are the same, but for
/// the case of a single letter and for the two keys that have two names.
pub proof fn law_keysyms_differ(a: Seq<char>, b: Seq<char>)
    requires
        keysym_of(a) is Some,
        keysym_of(b) is Some,
    ensures
        keysym_of(a) == keysym_of(b) <==> letter_lowered(a) == letter_lowered(b) || aliases(a, b),
{
    if a.len() == 1 {
        lemma_single(a);
        assert(letter_lowered(a) =~= seq![ascii_lower(a[0])]);
    }
    if b.len() == 1 {
        lemma_single(b);
        assert(letter_lowered(b) =~= seq![ascii_lower(b[0])]);
    }
    if aliases(a, b) {
        reveal_strlit("return");
        reveal_strlit("enter");
        reveal_strlit("escape");
        reveal_strlit("esc");
        assert("return"@[0] != "escape"@[0]);
    }
    if letter_lowered(a) == letter_lowered(b) {
        assert(letter_lowered(a).len() == letter_lowered(b).len());
        if a.len() == 1 {
            assert(letter_lowered(a)[0] == letter_lowered(b)[0]);
            assert(keysym_of(a) == keysym_of(b));
        }
    }
    if keysym_of(a) == keysym_of(b) && !aliases(a, b) {
        if a.len() == 1 {
            assert(b.len() == 1);
            assert(ascii_lower(a[0]) == ascii_lower(b[0]));
            assert(letter_lowered(a) =~= letter_lowered(b));
        } else {
            assert(a == b);
        }
    }
}

/// Names that stand for the same key are the same in lower case, but for the two keys
/// that have two names.
pub proof fn law_key_names_differ(a: Seq<char>, b: Seq<char>)
    requires
        keysym_of(lower_case(a)) is Some,
        keysym_of(lower_case(b)) is Some,
    ensures
        keysym_of(lower_case(a)) == keysym_of(lower_case(b)) <==> lower_case(a) == lower_case(b)
            || aliases(lower_case(a), lower_case(b)),
{
    let (x, y) = (lower_case(a), lower_case(b));
    law_keysyms_differ(x, y);
    assert(letter_lowered(x) =~= x);
    assert(letter_lowered(y) =~= y);
}

proof fn lemma_last_key(parts: Seq<Seq<char>>)
    ensures
        match last_key(parts) {
            Some(i) => 0 <= i < parts.len() && key_part(parts[i]) == KeyPart::Key,
            None => forall|i: int|
                0 <= i < parts.len() ==> key_part(#[trigger] parts[i]) != KeyPart::Key,
        },
    decreases parts.len(),
{
    if parts.len() > 0 && key_part(parts.last()) != KeyPart::Key {
        let head = parts.drop_last();
        lemma_last_key(head);
        if last_key(head) is None {
            assert forall|i: int| 0 <= i < parts.len() implies key_part(#[trigger] parts[i])
                != KeyPart::Key by {
                if i < head.len() {
                    assert(head[i] == parts[i]);
                }
            }
        }
    }
}

proof fn lemma_names_part(a: Seq<Seq<char>>, b: Seq<Seq<char>>, kind: KeyPart)
    requires
        forall|part: Seq<char>| #[trigger] a.contains(part) ==> b.contains(part),
        names_part(a, kind),
    ensures
        names_part(b, kind),
{
    let i = choose|i: int| 0 <= i < a.len() && key_part(#[trigger] a[i]) == kind;
    assert(a.contains(a[i]));
    let j = choose|j: int| 0 <= j < b.len() && b[j] == a[i];
    assert(key_part(b[j]) == kind);
}

/// The order of the parts of a key binding does not matter, nor does how often one of
/// them is repeated: bindings with the same parts in lower case stand for the same keys,
/// as long as the parts name no more than one key.
pub proof fn law_order_is_free(a: Seq<char>, b: Seq<char>)
    requires
        forall|part: Seq<char>| #[trigger]
            lowered_parts(a).contains(part) <==> lowered_parts(b).contains(part),
        forall|i: int, j: int|
            0 <= i < j < lowered_parts(a).len() && key_part(#[trigger] lowered_parts(a)[i])
                == KeyPart::Key && key_part(#[trigger] lowered_parts(a)[j]) == KeyPart::Key
                ==> lowered_parts(a)[i] == lowered_parts(a)[j],
    ensures
        parsed_keys(a) == parsed_keys(b),
{
    let (x, y) = (lowered_parts(a), lowered_parts(b));
    assert forall|kind: KeyPart| #[trigger] names_part(x, kind) == names_part(y, kind) by {
        if names_part(x, kind) {
            lemma_names_part(x, y, kind);
        }
        if names_part(y, kind) {
            lemma_names_part(y, x, kind);
        }
    }
    lemma_last_key(x);
    lemma_last_key(y);
    assert(names_part(x, KeyPart::Key) == names_part(y, KeyPart::Key));
    if let Some(i) = last_key(x) {
        assert(names_part(x, KeyPart::Key));
        let j = last_key(y)->0;
        assert(y.contains(y[j]));
        assert(x.contains(y[j]));
        let k = choose|k: int| 0 <= k < x.len() && x[k] == y[j];
        assert(key_part(x[k]) == KeyPart::Key);
        assert(x[k] == x[i]);
    } else {
        assert(last_key(y) is None) by {
            if let Some(j) = last_key(y) {
                assert(names_part(y, KeyPart::Key));
                assert(names_part(x, KeyPart::Key));
            }
        }
    }
}

proof fn lemma_split_ascii(text: Seq<char>, sep: char)
    requires
        is_ascii_chars(text),
    ensures
        split_on(text, sep).len() >= 1,
        forall|i: int|
            0 <= i < split_on(text, sep).len() ==> is_ascii_chars(#[trigger] split_on(text, sep)[i]),
    decreases text.len(),
{
    if text.len() > 0 {
        let head = text.drop_last();
        assert(forall|i: int| 0 <= i < head.len() ==> head[i] == text[i]);
        lemma_split_ascii(head, sep);
        let parts = split_on(head, sep);
        let all = split_on(text, sep);
        assert('\0' <= text[text.len() - 1] <= '\u{7f}');
        assert forall|i: int| 0 <= i < all.len() implies is_ascii_chars(#[trigger] all[i]) by {
            if i < parts.len() - 1 || text.last() == sep && i == parts.len() - 1 {
                assert(all[i] == parts[i]);
            } else if text.last() != sep {
                let last = parts[parts.len() - 1];
                assert(all[i] == last.push(text.last()));
                assert(is_ascii_chars(last));
            }
        }
    }
}

/// The parts of a key binding with their ASCII letters in lower case.
pub open spec fn folded_parts(keys: Seq<char>) -> Seq<Seq<char>> {
    split_on(keys, '+').map_values(|part: Seq<char>| ascii_lowered(part))
}

/// Neither the case of letters nor the order of the parts nor repeating one of them
/// matters in a key binding in ASCII: bindings with the same parts, up to the case of
/// letters, stand for the same keys, as long as the parts name no more than one key.
pub proof fn law_case_is_free(a: Seq<char>, b: Seq<char>)
    requires
        is_ascii_chars(a),
        is_ascii_chars(b),
        forall|part: Seq<char>| #[trigger]
            folded_parts(a).contains(part) <==> folded_parts(b).contains(part),
        forall|i: int, j: int|
            0 <= i < j < folded_parts(a).len() && key_part(#[trigger] folded_parts(a)[i])
                == KeyPart::Key && key_part(#[trigger] folded_parts(a)[j]) == KeyPart::Key
                ==> folded_parts(a)[i] == folded_parts(a)[j],
    ensures
        parsed_keys(a) == parsed_keys(b),
{
    lemma_split_ascii(a, '+');
    lemma_split_ascii(b, '+');
    assert(lowered_parts(a) =~= folded_parts(a));
    assert(lowered_parts(b) =~= folded_parts(b));
    law_order_is_free(a, b);
}

/// The modifiers of a binding are those that its parts name, under any of their names, and
/// its key is the one that its last part names that is no modifier. A binding whose key is
/// not known is none.
pub proof fn law_parts_name_modifiers(keys: Seq<char>, i: int)
    ensures
        ({
            let parts = split_on(keys, '+');
            let name = lower_case(parts[i]);
            let logo = name == "super"@ || name == "mod4"@ || name == "logo"@;
            let shift = name == "shift"@;
            let ctrl = name == "ctrl"@ || name == "control"@;
            let alt = name == "alt"@ || name == "mod1"@;
            0 <= i < parts.len() ==> {
                &&& parsed_keys(keys) matches Some(bind) ==> {
                    &&& logo ==> bind.logo
                    &&& shift ==> bind.shift
                    &&& ctrl ==> bind.ctrl
                    &&& alt ==> bind.alt
                }
                &&& !(logo || shift || ctrl || alt) && (forall|j: int|
                    i < j < parts.len() ==> is_modifier_name(lower_case(#[trigger] parts[j])))
                    ==> (match keysym_of(name) {
                    Some(keysym) => parsed_keys(keys) matches Some(bind) && bind.keysym == keysym,
                    None => parsed_keys(keys) is None,
                })
            }
        }),
{
    let parts = split_on(keys, '+');
    let lowered = lowered_parts(keys);
    if 0 <= i < parts.len() {
        let name = lower_case(parts[i]);
        assert(lowered[i] == name);
        lemma_names_apart();
        assert(names_part(lowered, key_part(name)));
        if key_part(name) == KeyPart::Key && (forall|j: int|
            i < j < parts.len() ==> is_modifier_name(lower_case(#[trigger] parts[j]))) {
            assert forall|j: int| i < j < lowered.len() implies key_part(
                #[trigger] lowered[j],
            ) != KeyPart::Key by {
                assert(lowered[j] == lower_case(parts[j]));
            }
            lemma_last_is(lowered, i);
        }
    }
}

/// A modifier that a binding has is named by one of its parts.
pub proof fn law_modifiers_are_named(keys: Seq<char>)
    ensures
        parsed_keys(keys) matches Some(bind) ==> {
            let parts = split_on(keys, '+');
            &&& bind.logo ==> exists|i: int|
                0 <= i < parts.len() && {
                    let name = lower_case(#[trigger] parts[i]);
                    name == "super"@ || name == "mod4"@ || name == "logo"@
                }
            &&& bind.shift ==> exists|i: int|
                0 <= i < parts.len() && lower_case(#[trigger] parts[i]) == "shift"@
            &&& bind.ctrl ==> exists|i: int|
                0 <= i < parts.len() && {
                    let name = lower_case(#[trigger] parts[i]);
                    name == "ctrl"@ || name == "control"@
                }
            &&& bind.alt ==> exists|i: int|
                0 <= i < parts.len() && {
                    let name = lower_case(#[trigger] parts[i]);
                    name == "alt"@ || name == "mod1"@
                }
        },
{
    let parts = split_on(keys, '+');
    let lowered = lowered_parts(keys);
    assert forall|kind: KeyPart| #[trigger] names_part(lowered, kind) implies exists|i: int|
        0 <= i < parts.len() && key_part(lower_case(#[trigger] parts[i])) == kind by {
        let i = choose|i: int| 0 <= i < lowered.len() && key_part(#[trigger] lowered[i]) == kind;
        assert(key_part(lower_case(parts[i])) == kind);
    }
}

/// A name of a modifier, in lower case.
pub open spec fn is_modifier_name(name: Seq<char>) -> bool {
    ||| name == "super"@ || name == "mod4"@ || name == "logo"@
    ||| name == "shift"@
    ||| name == "ctrl"@ || name == "control"@
    ||| name == "alt"@ || name == "mod1"@
}

/// No two modifiers share a name.
proof fn lemma_names_apart()
    ensures
        key_part("super"@) == KeyPart::Logo,
        key_part("mod4"@) == KeyPart::Logo,
        key_part("logo"@) == KeyPart::Logo,
        key_part("shift"@) == KeyPart::Shift,
        key_part("ctrl"@) == KeyPart::Ctrl,
        key_part("control"@) == KeyPart::Ctrl,
        key_part("alt"@) == KeyPart::Alt,
        key_part("mod1"@) == KeyPart::Alt,
{
    reveal_strlit("super");
    reveal_strlit("mod4");
    reveal_strlit("logo");
    reveal_strlit("shift");
    reveal_strlit("ctrl");
    reveal_strlit("control");
    reveal_strlit("alt");
    reveal_strlit("mod1");
    assert("super"@[1] == 'u');
    assert("shift"@[1] == 'h');
    assert("mod4"@[3] == '4');
    assert("mod1"@[3] == '1');
    assert("logo"@[0] == 'l');
    assert("ctrl"@[0] == 'c');
    assert("control"@[0] == 'c');
    assert("alt"@[0] == 'a');
    assert("mod1"@[0] == 'm');
    assert("mod4"@[0] == 'm');
    assert("super"@[0] == 's');
    assert("shift"@[0] == 's');
}

proof fn lemma_last_is(lowered: Seq<Seq<char>>, i: int)
    requires
        0 <= i < lowered.len(),
        key_part(lowered[i]) == KeyPart::Key,
        forall|j: int| i < j < lowered.len() ==> key_part(#[trigger] lowered[j]) != KeyPart::Key,
    ensures
        last_key(lowered) == Some(i),
    decreases lowered.len(),
{
    if i < lowered.len() - 1 {
        assert(lowered[lowered.len() - 1] == lowered.last());
        let head = lowered.drop_last();
        assert forall|j: int| i < j < head.len() implies key_part(#[trigger] head[j])
            != KeyPart::Key by {
            assert(head[j] == lowered[j]);
        }
        lemma_last_is(head, i);
    }
}

/// A letter or a digit is the key that types it.
pub proof fn law_letters_type_themselves(c: char)
    ensures
        'a' <= c <= 'z' || '0' <= c <= '9' ==> keysym_of(seq![c]) == Some(c as u32),
{
    lemma_single(seq![c]);
}

} // verus!
