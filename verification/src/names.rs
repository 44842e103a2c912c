//! Names of weights.

use vstd::prelude::*;
use vstd::string::*;

verus! {

/// `text` starts with `prefix`.
pub open spec fn begins(text: Seq<char>, prefix: Seq<char>) -> bool {
    prefix.len() <= text.len() && text.take(prefix.len() as int) == prefix
}

/// What stands behind a prefix, where the text starts with it.
pub open spec fn behind(text: Seq<char>, prefix: Seq<char>) -> Option<Seq<char>> {
    if begins(text, prefix) {
        Some(text.skip(prefix.len() as int))
    } else {
        None
    }
}

/// Whether a text starts with a prefix.
pub fn starts(text: &String, prefix: &str) -> (yes: bool)
    ensures
        yes == begins(text@, prefix@),
{
    let n: usize = text.as_str().unicode_len();
    let p: usize = prefix.unicode_len();
    if p > n {
        return false;
    }
    let mut i: usize = 0;
    while i < p
        invariant
            i <= p <= n,
            n == text@.len(),
            p == prefix@.len(),
            forall|j: int| 0 <= j < i ==> text@[j] == prefix@[j],
        decreases p - i,
    {
        if text.as_str().get_char(i) != prefix.get_char(i) {
            assert(text@.take(p as int)[i as int] != prefix@[i as int]);
            return false;
        }
        i = i + 1;
    }
    assert(text@.take(p as int) =~= prefix@);
    true
}

/// What stands behind a prefix, where the text starts with it.
pub fn strip(text: &String, prefix: &str) -> (rest: Option<String>)
    ensures
        match rest {
            Some(rest) => behind(text@, prefix@) == Some(rest@),
            None => behind(text@, prefix@) is None,
        },
{
    if !starts(text, prefix) {
        return None;
    }
    let n: usize = text.as_str().unicode_len();
    let p: usize = prefix.unicode_len();
    let rest: String = String::from_str(text.as_str().substring_char(p, n));
    assert(rest@ =~= text@.skip(p as int));
    Some(rest)
}

/// Two texts one after the other.
pub fn joined(first: &str, second: &str) -> (text: String)
    ensures
        text@ == first@ + second@,
{
    let start: String = String::from_str(first);
    start.concat(second)
}

/// Whether a text is a word.
pub fn is_word(text: &String, word: &str) -> (yes: bool)
    ensures
        yes == (text@ == word@),
{
    let other: String = String::from_str(word);
    *text == other
}

/// A weight of a draft head as its own file may name it.
pub open spec fn bare_head_key(key: Seq<char>) -> bool {
    key == "fc.weight"@ || begins(key, "layers."@) || begins(key, "pre_fc_norm_"@) || begins(key, "norm."@)
}

/// The name of a draft head's weight, whatever prefix its file gives it.
pub open spec fn head_key(key: Seq<char>) -> Seq<char> {
    match behind(key, "language_model.mtp."@) {
        Some(rest) => "mtp."@ + rest,
        None => if begins(key, "mtp."@) {
            key
        } else if bare_head_key(key) {
            "mtp."@ + key
        } else {
            key
        },
    }
}

/// Whether a name is one that a draft head's own file may give.
pub fn is_bare_mtp_sidecar_key(key: &String) -> (yes: bool)
    ensures
        yes == bare_head_key(key@),
{
    is_word(key, "fc.weight") || starts(key, "layers.") || starts(key, "pre_fc_norm_") || starts(key, "norm.")
}

/// The name of a draft head's weight, whatever prefix its file gives it.
pub fn normalize_mtp_sidecar_key(key: &String) -> (name: String)
    ensures
        name@ == head_key(key@),
{
    match strip(key, "language_model.mtp.") {
        Some(rest) => joined("mtp.", rest.as_str()),
        None => if starts(key, "mtp.") {
            key.clone()
        } else if is_bare_mtp_sidecar_key(key) {
            joined("mtp.", key.as_str())
        } else {
            key.clone()
        },
    }
}

/// The name of a draft output map's weight behind the first of the prefixes that
/// fits, or on its own.
pub open spec fn output_key(key: Seq<char>) -> Seq<char> {
    match behind(key, "language_model._mtplx_draft_lm_head."@) {
        Some(rest) => "lm_head."@ + rest,
        None => match behind(key, "model._mtplx_draft_lm_head."@) {
            Some(rest) => "lm_head."@ + rest,
            None => match behind(key, "_mtplx_draft_lm_head."@) {
                Some(rest) => "lm_head."@ + rest,
                None => match behind(key, "language_model.lm_head."@) {
                    Some(rest) => "lm_head."@ + rest,
                    None => match behind(key, "model.lm_head."@) {
                        Some(rest) => "lm_head."@ + rest,
                        None => match behind(key, "lm_head."@) {
                            Some(rest) => "lm_head."@ + rest,
                            None => if key == "weight"@ || key == "scales"@ || key == "biases"@ {
                                "lm_head."@ + key
                            } else {
                                key
                            },
                        },
                    },
                },
            },
        },
    }
}

/// The name of a draft output map's weight, whatever prefix its file gives it.
pub fn normalize_mtp_draft_lm_head_key(key: &String) -> (name: String)
    ensures
        name@ == output_key(key@),
{
    if let Some(rest) = strip(key, "language_model._mtplx_draft_lm_head.") {
        return joined("lm_head.", rest.as_str());
    }
    if let Some(rest) = strip(key, "model._mtplx_draft_lm_head.") {
        return joined("lm_head.", rest.as_str());
    }
    if let Some(rest) = strip(key, "_mtplx_draft_lm_head.") {
        return joined("lm_head.", rest.as_str());
    }
    if let Some(rest) = strip(key, "language_model.lm_head.") {
        return joined("lm_head.", rest.as_str());
    }
    if let Some(rest) = strip(key, "model.lm_head.") {
        return joined("lm_head.", rest.as_str());
    }
    if let Some(rest) = strip(key, "lm_head.") {
        return joined("lm_head.", rest.as_str());
    }
    if is_word(key, "weight") || is_word(key, "scales") || is_word(key, "biases") {
        joined("lm_head.", key.as_str())
    } else {
        key.clone()
    }
}

proof fn lemma_begins_joined(prefix: Seq<char>, rest: Seq<char>)
    ensures
        begins(prefix + rest, prefix),
        behind(prefix + rest, prefix) == Some(rest),
{
    assert((prefix + rest).take(prefix.len() as int) =~= prefix);
    assert((prefix + rest).skip(prefix.len() as int) =~= rest);
}

/// A name that was brought into form stays as it is.
pub proof fn law_head_key_settles(key: Seq<char>)
    ensures
        head_key(head_key(key)) == head_key(key),
{
    reveal_strlit("mtp.");
    reveal_strlit("language_model.mtp.");
    let made = head_key(key);
    if behind(key, "language_model.mtp."@) is Some {
        lemma_begins_joined("mtp."@, key.skip("language_model.mtp."@.len() as int));
    } else if !begins(key, "mtp."@) && bare_head_key(key) {
        lemma_begins_joined("mtp."@, key);
    }
    if begins(made, "mtp."@) {
        assert(made.take(4)[0] == 'm');
        assert(made[0] == 'm');
        if begins(made, "language_model.mtp."@) {
            assert(made.take("language_model.mtp."@.len() as int)[0] == 'l');
        }
    }
}

/// A name that was brought into form stays as it is.
pub proof fn law_output_key_settles(key: Seq<char>)
    ensures
        output_key(output_key(key)) == output_key(key),
{
    reveal_strlit("lm_head.");
    reveal_strlit("language_model._mtplx_draft_lm_head.");
    reveal_strlit("model._mtplx_draft_lm_head.");
    reveal_strlit("_mtplx_draft_lm_head.");
    reveal_strlit("language_model.lm_head.");
    reveal_strlit("model.lm_head.");
    let made = output_key(key);
    assert forall|rest: Seq<char>| begins(#[trigger] ("lm_head."@ + rest), "lm_head."@) by {
        lemma_begins_joined("lm_head."@, rest);
    }
    if begins(made, "lm_head."@) {
        assert(made.take(8)[0] == 'l' && made.take(8)[1] == 'm');
        assert(made[0] == 'l' && made[1] == 'm');
        if begins(made, "language_model._mtplx_draft_lm_head."@) {
            assert(made.take("language_model._mtplx_draft_lm_head."@.len() as int)[1] == 'a');
        }
        if begins(made, "model._mtplx_draft_lm_head."@) {
            assert(made.take("model._mtplx_draft_lm_head."@.len() as int)[0] == 'm');
        }
        if begins(made, "_mtplx_draft_lm_head."@) {
            assert(made.take("_mtplx_draft_lm_head."@.len() as int)[0] == '_');
        }
        if begins(made, "language_model.lm_head."@) {
            assert(made.take("language_model.lm_head."@.len() as int)[1] == 'a');
        }
        if begins(made, "model.lm_head."@) {
            assert(made.take("model.lm_head."@.len() as int)[0] == 'm');
        }
        let rest = made.skip(8);
        assert("lm_head."@ + rest =~= made) by {
            assert(made.take(8) + rest =~= made);
        }
    } else {
        assert(made == key);
    }
}

} // verus!
