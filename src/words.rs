//! Memorable random names: adjectives and a noun, joined by a separator.

use crate::conf::texts_of;
use crate::error::SeshError;
use rand::seq::IndexedRandom;
use vstd::prelude::*;
use vstd::string::StringExecFns;

verus! {

/// The adjectives a name is drawn from.
pub open spec fn adjective_words() -> Seq<Seq<char>> {
    seq![
        "amber"@, "brave"@, "calm"@, "eager"@, "fuzzy"@, "gentle"@, "jolly"@, "lucky"@,
        "mellow"@, "nimble"@, "quiet"@, "rapid"@, "sunny"@, "tidy"@, "witty"@, "zesty"@,
    ]
}

/// The nouns a name is drawn from.
pub open spec fn noun_words() -> Seq<Seq<char>> {
    seq![
        "badger"@, "comet"@, "falcon"@, "harbor"@, "kettle"@, "lantern"@, "maple"@, "otter"@,
        "pebble"@, "quokka"@, "river"@, "saddle"@, "tulip"@, "walrus"@, "willow"@, "yak"@,
    ]
}

/// `words` joined by `sep`.
pub open spec fn joined(words: Seq<Seq<char>>, sep: char) -> Seq<char>
    decreases words.len(),
{
    if words.len() == 0 {
        Seq::empty()
    } else if words.len() == 1 {
        words[0]
    } else {
        joined(words.drop_last(), sep) + seq![sep] + words.last()
    }
}

/// `s` is `adjectives` adjectives from the list and then a noun from the list, joined by `sep`.
pub open spec fn is_phrase(s: Seq<char>, adjectives: nat, sep: char) -> bool {
    exists|words: Seq<Seq<char>>|
        {
            &&& words.len() == adjectives + 1
            &&& forall|i: int| 0 <= i < adjectives ==> adjective_words().contains(#[trigger] words[i])
            &&& noun_words().contains(words[adjectives as int])
            &&& s == joined(words, sep)
        }
}

fn adjectives() -> (r: Vec<String>)
    ensures
        texts_of(r@) == adjective_words(),
{
    let r = vec![
        String::from_str("amber"), String::from_str("brave"), String::from_str("calm"),
        String::from_str("eager"), String::from_str("fuzzy"), String::from_str("gentle"),
        String::from_str("jolly"), String::from_str("lucky"), String::from_str("mellow"),
        String::from_str("nimble"), String::from_str("quiet"), String::from_str("rapid"),
        String::from_str("sunny"), String::from_str("tidy"), String::from_str("witty"),
        String::from_str("zesty"),
    ];
    proof {
        assert(texts_of(r@) =~= adjective_words());
    }
    r
}

fn nouns() -> (r: Vec<String>)
    ensures
        texts_of(r@) == noun_words(),
{
    let r = vec![
        String::from_str("badger"), String::from_str("comet"), String::from_str("falcon"),
        String::from_str("harbor"), String::from_str("kettle"), String::from_str("lantern"),
        String::from_str("maple"), String::from_str("otter"), String::from_str("pebble"),
        String::from_str("quokka"), String::from_str("river"), String::from_str("saddle"),
        String::from_str("tulip"), String::from_str("walrus"), String::from_str("willow"),
        String::from_str("yak"),
    ];
    proof {
        assert(texts_of(r@) =~= noun_words());
    }
    r
}

/// Relies on rand's `IndexedRandom::choose` over the thread-local generator:
/// `None` for an empty list, otherwise one of its elements.
#[verifier::external_body]
fn choose_word(words: &Vec<String>) -> (r: Option<String>)
    ensures
        words@.len() == 0 <==> r is None,
        r matches Some(w) ==> texts_of(words@).contains(w@),
{
    words.as_slice().choose(&mut rand::rng()).cloned()
}

/// Relies on `ToString` for `char`: the text made of that one character.
#[verifier::external_body]
fn char_text(c: char) -> (r: String)
    ensures
        r@ == seq![c],
{
    c.to_string()
}

/// `words` joined by `sep`.
pub fn join_words(words: &Vec<String>, sep: char) -> (r: String)
    ensures
        r@ == joined(texts_of(words@), sep),
{
    let sep_text = char_text(sep);
    let mut r = String::new();
    let mut i: usize = 0;
    while i < words.len()
        invariant
            i <= words@.len(),
            sep_text@ == seq![sep],
            r@ == joined(texts_of(words@.subrange(0, i as int)), sep),
        decreases words@.len() - i,
    {
        let ghost before = texts_of(words@.subrange(0, i as int));
        if i > 0 {
            r.append(sep_text.as_str());
        }
        r.append(words[i].as_str());
        proof {
            let now = texts_of(words@.subrange(0, i + 1));
            assert(now =~= before.push(words@[i as int]@));
            assert(now.drop_last() =~= before);
            if i == 0 {
                assert(before.len() == 0);
                assert(r@ =~= now[0]);
            }
        }
        i += 1;
    }
    proof {
        assert(words@.subrange(0, words@.len() as int) == words@);
    }
    r
}

/// A random name of `nadj` adjectives (one when not given) and a noun, joined
/// by `sep` (`-` when not given).
pub fn rand_phrase(nadj: Option<u8>, sep: Option<char>) -> (r: Result<String, SeshError>)
    ensures
        r matches Ok(s) ==> is_phrase(
            s@,
            (match nadj {
                Some(n) => n,
                None => 1u8,
            }) as nat,
            match sep {
                Some(c) => c,
                None => '-',
            },
        ),
        r is Ok,
{
    let count: u8 = match nadj {
        Some(n) => n,
        None => 1,
    };
    let sep: char = match sep {
        Some(c) => c,
        None => '-',
    };
    let adjs = adjectives();
    let ns = nouns();
    proof {
        assert(texts_of(adjs@).len() == adjs@.len());
        assert(texts_of(ns@).len() == ns@.len());
        assert(adjective_words().len() > 0);
        assert(noun_words().len() > 0);
    }
    let mut words: Vec<String> = Vec::new();
    let mut i: u8 = 0;
    while i < count
        invariant
            i <= count,
            texts_of(adjs@) == adjective_words(),
            adjs@.len() > 0,
            words@.len() == i,
            forall|j: int| 0 <= j < i ==> adjective_words().contains(#[trigger] texts_of(words@)[j]),
        decreases count - i,
    {
        let w = choose_word(&adjs).unwrap();
        let ghost before = texts_of(words@);
        words.push(w);
        proof {
            assert(texts_of(words@) =~= before.push(w@));
        }
        i += 1;
    }
    let noun = choose_word(&ns).unwrap();
    let ghost before = texts_of(words@);
    words.push(noun);
    let s = join_words(&words, sep);
    proof {
        let ws = texts_of(words@);
        assert(ws =~= before.push(noun@));
        assert(ws.len() == count + 1);
        assert(forall|j: int| 0 <= j < count ==> adjective_words().contains(#[trigger] ws[j]));
        assert(noun_words().contains(ws[count as int]));
        assert(s@ == joined(ws, sep));
        assert(is_phrase(s@, count as nat, sep));
    }
    Ok(s)
}

} // verus!
