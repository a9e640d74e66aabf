use vstd::prelude::*;

use crate::digits::dec_digits;
use crate::digits::is_dec_digit;
use crate::digits::leading_digits;
use crate::digits::lemma_dec_digits_are_digits;
use crate::digits::lemma_dec_digits_len;
use crate::digits::lemma_dec_digits_val;
use crate::digits::lemma_leading_digits_concat;
use crate::digits::lemma_pow10_twenty;
use crate::digits::lemma_val_of_digits_bound;
use crate::digits::pow10;
use crate::digits::u64_to_dec;
use crate::digits::char_to_digit;
use crate::digits::val_of_digits;
use crate::config::AutoSwitchPattern;
use crate::config::AutoSwitchPatternV;
use crate::config::Config;
use crate::config::ConfigV;
use crate::config::SshKeyType;
use crate::strutil::push_char;
use crate::user::User;
use crate::user::UserV;
use crate::user::Users;

verus! {

/// One plain value in the persisted form: a string, a number or a flag.
/// Records are flattened to a list of these, and the list is what the
/// character-level codec reads and writes.
pub enum Item {
    Text(String),
    Number(u64),
    Flag(bool),
}

/// The mathematical value of an `Item`.
pub ghost enum ItemV {
    Text(Seq<char>),
    Number(u64),
    Flag(bool),
}

impl View for Item {
    type V = ItemV;

    open spec fn view(&self) -> ItemV {
        match self {
            Item::Text(t) => ItemV::Text(t@),
            Item::Number(v) => ItemV::Number(*v),
            Item::Flag(b) => ItemV::Flag(*b),
        }
    }
}

/// The values a sequence of items stands for.
pub open spec fn items_view(v: Seq<Item>) -> Seq<ItemV> {
    v.map(|i: int, it: Item| it@)
}

/// A text item fits the length prefix the encoding uses.
pub open spec fn item_bounded(it: ItemV) -> bool {
    match it {
        ItemV::Text(t) => t.len() <= u64::MAX,
        _ => true,
    }
}

pub open spec fn items_bounded(l: Seq<ItemV>) -> bool {
    forall|i: int| 0 <= i < l.len() ==> item_bounded(#[trigger] l[i])
}

/// One encoded item: a tag character, then for a string its length, a colon
/// and the characters themselves; for a number its digits and a semicolon;
/// for a flag a `1` or a `0`. The length prefix makes the form unambiguous
/// whatever characters the string holds.
pub open spec fn spec_encode_item(it: ItemV) -> Seq<char> {
    match it {
        ItemV::Text(t) => seq!['s'] + dec_digits(t.len()) + seq![':'] + t,
        ItemV::Number(v) => seq!['n'] + dec_digits(v as nat) + seq![';'],
        ItemV::Flag(b) => if b {
            seq!['f', '1']
        } else {
            seq!['f', '0']
        },
    }
}

pub open spec fn spec_encode_items(l: Seq<ItemV>) -> Seq<char>
    decreases l.len(),
{
    if l.len() == 0 {
        Seq::empty()
    } else {
        spec_encode_item(l[0]) + spec_encode_items(l.drop_first())
    }
}

/// A whole document: the number of items, a semicolon, then the items.
pub open spec fn spec_encode_doc(l: Seq<ItemV>) -> Seq<char> {
    dec_digits(l.len()) + seq![';'] + spec_encode_items(l)
}

/// A number read off the head of the input: its leading digit run (of at
/// most twenty digits, so the value fits in a `u64`), and what follows.
pub open spec fn spec_parse_number(s: Seq<char>) -> Option<(u64, Seq<char>)> {
    let k = leading_digits(s);
    if 1 <= k <= 20 {
        let v = val_of_digits(s.take(k as int));
        if v <= u64::MAX {
            Some(((v as u64), s.skip(k as int)))
        } else {
            None
        }
    } else {
        None
    }
}

/// One item read off the head of the input, and what follows.
pub open spec fn spec_parse_item(s: Seq<char>) -> Option<(ItemV, Seq<char>)> {
    if s.len() == 0 {
        None
    } else if s[0] == 's' {
        match spec_parse_number(s.skip(1)) {
            Some(pair) => {
                if pair.1.len() >= 1 + pair.0 && pair.1[0] == ':' {
                    Some(
                        (
                            ItemV::Text(pair.1.subrange(1, 1 + pair.0 as int)),
                            pair.1.skip(1 + pair.0 as int),
                        ),
                    )
                } else {
                    None
                }
            },
            None => None,
        }
    } else if s[0] == 'n' {
        match spec_parse_number(s.skip(1)) {
            Some(pair) => {
                if pair.1.len() >= 1 && pair.1[0] == ';' {
                    Some((ItemV::Number(pair.0), pair.1.skip(1)))
                } else {
                    None
                }
            },
            None => None,
        }
    } else if s[0] == 'f' {
        if s.len() >= 2 && (s[1] == '0' || s[1] == '1') {
            Some((ItemV::Flag(s[1] == '1'), s.skip(2)))
        } else {
            None
        }
    } else {
        None
    }
}

/// `count` items read off the head of the input, and what follows.
pub open spec fn spec_parse_items(s: Seq<char>, count: nat) -> Option<(Seq<ItemV>, Seq<char>)>
    decreases count,
{
    if count == 0 {
        Some((Seq::empty(), s))
    } else {
        match spec_parse_item(s) {
            Some(pair) => {
                match spec_parse_items(pair.1, (count - 1) as nat) {
                    Some(pair2) => Some((seq![pair.0] + pair2.0, pair2.1)),
                    None => None,
                }
            },
            None => None,
        }
    }
}

/// A whole document decoded: the announced number of items, all of them,
/// and nothing after.
pub open spec fn spec_decode_items(s: Seq<char>) -> Option<Seq<ItemV>> {
    match spec_parse_number(s) {
        Some(pair) => {
            if pair.1.len() >= 1 && pair.1[0] == ';' {
                match spec_parse_items(pair.1.skip(1), pair.0 as nat) {
                    Some(pair2) => {
                        if pair2.1.len() == 0 {
                            Some(pair2.0)
                        } else {
                            None
                        }
                    },
                    None => None,
                }
            } else {
                None
            }
        },
        None => None,
    }
}

/// Reading a spelled number off the input gives the number back, whatever
/// follows its digits (as long as that is not another digit).
proof fn lemma_parse_number_of_encoding(n: u64, rest: Seq<char>)
    requires
        rest.len() == 0 || !is_dec_digit(rest[0]),
    ensures
        spec_parse_number(dec_digits(n as nat) + rest) == Some((n, rest)),
{
    let d = dec_digits(n as nat);
    lemma_dec_digits_are_digits(n as nat);
    lemma_leading_digits_concat(d, rest);
    lemma_pow10_twenty();
    lemma_dec_digits_len(n as nat, 20);
    assert((d + rest).take(d.len() as int) =~= d);
    assert((d + rest).skip(d.len() as int) =~= rest);
    lemma_dec_digits_val(n as nat);
}

/// Reading an encoded item off the input gives the item back, whatever
/// follows its encoding.
proof fn lemma_parse_item_of_encoding(it: ItemV, rest: Seq<char>)
    requires
        item_bounded(it),
    ensures
        spec_parse_item(spec_encode_item(it) + rest) == Some((it, rest)),
{
    let s = spec_encode_item(it) + rest;
    match it {
        ItemV::Text(t) => {
            assert(s[0] == 's');
            let after = seq![':'] + (t + rest);
            assert(s.skip(1) =~= dec_digits(t.len()) + after);
            assert(!is_dec_digit(after[0]));
            lemma_parse_number_of_encoding(t.len() as u64, after);
            assert(after.len() >= 1 + t.len());
            assert(after.subrange(1, 1 + t.len() as int) =~= t);
            assert(after.skip(1 + t.len() as int) =~= rest);
        },
        ItemV::Number(v) => {
            assert(s[0] == 'n');
            let after = seq![';'] + rest;
            assert(s.skip(1) =~= dec_digits(v as nat) + after);
            assert(!is_dec_digit(after[0]));
            lemma_parse_number_of_encoding(v, after);
            assert(after[0] == ';');
            assert(after.skip(1) =~= rest);
        },
        ItemV::Flag(b) => {
            assert(s[0] == 'f');
            assert(s[1] == (if b {
                '1'
            } else {
                '0'
            }));
            assert(s.skip(2) =~= rest);
        },
    }
}

/// Reading back a run of encoded items gives the items, whatever follows.
proof fn lemma_parse_items_of_encoding(l: Seq<ItemV>, rest: Seq<char>)
    requires
        items_bounded(l),
    ensures
        spec_parse_items(spec_encode_items(l) + rest, l.len()) == Some((l, rest)),
    decreases l.len(),
{
    if l.len() == 0 {
        assert(spec_encode_items(l) + rest =~= rest);
    } else {
        let tail = l.drop_first();
        assert(spec_encode_items(l) + rest =~= spec_encode_item(l[0]) + (spec_encode_items(tail)
            + rest));
        assert(item_bounded(l[0]));
        lemma_parse_item_of_encoding(l[0], spec_encode_items(tail) + rest);
        assert(items_bounded(tail)) by {
            assert(forall|i: int| 0 <= i < tail.len() ==> tail[i] == l[i + 1]);
        }
        lemma_parse_items_of_encoding(tail, rest);
        assert(seq![l[0]] + tail =~= l);
    }
}

/// The round trip at the document level: decoding an encoded item list
/// gives exactly the list back.
pub proof fn lemma_decode_of_encode(l: Seq<ItemV>)
    requires
        items_bounded(l),
        l.len() <= u64::MAX,
    ensures
        spec_decode_items(spec_encode_doc(l)) == Some(l),
{
    let after = seq![';'] + spec_encode_items(l);
    assert(spec_encode_doc(l) =~= dec_digits(l.len()) + after);
    assert(!is_dec_digit(after[0]));
    lemma_parse_number_of_encoding(l.len() as u64, after);
    assert(after[0] == ';');
    assert(after.skip(1) =~= spec_encode_items(l));
    lemma_parse_items_of_encoding(l, Seq::empty());
    assert(spec_encode_items(l) + Seq::<char>::empty() =~= spec_encode_items(l));
}

/// Appending one more item extends the encoding at the end.
proof fn lemma_encode_items_push(l: Seq<ItemV>, x: ItemV)
    ensures
        spec_encode_items(l.push(x)) == spec_encode_items(l) + spec_encode_item(x),
    decreases l.len(),
{
    if l.len() == 0 {
        assert(l.push(x)[0] == x);
        assert(l.push(x).drop_first() =~= Seq::<ItemV>::empty());
        assert(spec_encode_items(Seq::<ItemV>::empty()) =~= Seq::<char>::empty());
        assert(spec_encode_items(l.push(x)) =~= spec_encode_item(x));
        assert(spec_encode_items(l) + spec_encode_item(x) =~= spec_encode_item(x));
    } else {
        assert(l.push(x)[0] == l[0]);
        assert(l.push(x).drop_first() =~= l.drop_first().push(x));
        lemma_encode_items_push(l.drop_first(), x);
        assert(spec_encode_item(l[0]) + (spec_encode_items(l.drop_first()) + spec_encode_item(x))
            =~= (spec_encode_item(l[0]) + spec_encode_items(l.drop_first())) + spec_encode_item(
            x,
        ));
    }
}

/// One item appended to the output string.
fn encode_item_onto(s: &mut String, it: &Item)
    ensures
        final(s)@ == old(s)@ + spec_encode_item(it@),
{
    match it {
        Item::Text(t) => {
            push_char(s, 's');
            let len_digits = u64_to_dec(t.unicode_len() as u64);
            s.append(len_digits.as_str());
            push_char(s, ':');
            s.append(t.as_str());
            proof {
                assert(final(s)@ =~= old(s)@ + (seq!['s'] + dec_digits(t@.len()) + seq![':']
                    + t@));
            }
        },
        Item::Number(v) => {
            push_char(s, 'n');
            let digits = u64_to_dec(*v);
            s.append(digits.as_str());
            push_char(s, ';');
            proof {
                assert(final(s)@ =~= old(s)@ + (seq!['n'] + dec_digits(*v as nat) + seq![';']));
            }
        },
        Item::Flag(b) => {
            push_char(s, 'f');
            if *b {
                push_char(s, '1');
                proof {
                    assert(final(s)@ =~= old(s)@ + seq!['f', '1']);
                }
            } else {
                push_char(s, '0');
                proof {
                    assert(final(s)@ =~= old(s)@ + seq!['f', '0']);
                }
            }
        },
    }
}

/// The document encoding an item list.
pub fn encode_items(items: &Vec<Item>) -> (r: String)
    ensures
        r@ == spec_encode_doc(items_view(items@)),
{
    let ghost l = items_view(items@);
    let mut s = u64_to_dec(items.len() as u64);
    push_char(&mut s, ';');
    let ghost head = s@;
    let n = items.len();
    let mut i: usize = 0;
    proof {
        assert(l.take(0) =~= Seq::<ItemV>::empty());
    }
    while i < n
        invariant
            n == items@.len(),
            n == l.len(),
            l == items_view(items@),
            head == dec_digits(l.len()) + seq![';'],
            0 <= i <= n,
            s@ == head + spec_encode_items(l.take(i as int)),
        decreases n - i,
    {
        proof {
            assert(l.take(i + 1) =~= l.take(i as int).push(l[i as int]));
            lemma_encode_items_push(l.take(i as int), l[i as int]);
        }
        encode_item_onto(&mut s, &items[i]);
        i += 1;
    }
    proof {
        assert(l.take(n as int) =~= l);
        assert(s@ =~= dec_digits(l.len()) + seq![';'] + spec_encode_items(l));
    }
    s
}

/// `pow10` grows with its argument.
proof fn lemma_pow10_le(a: nat, b: nat)
    requires
        a <= b,
    ensures
        pow10(a) <= pow10(b),
    decreases b,
{
    if a < b {
        lemma_pow10_le(a, (b - 1) as nat);
    }
}

/// A number read off the input at a position: the digit run is measured,
/// then its value accumulated, exactly as the parsing specification says.
fn parse_number_at(s: &str, idx: usize) -> (r: Option<(u64, usize)>)
    requires
        idx <= s@.len(),
    ensures
        match r {
            Some(pair) => idx < pair.1 <= s@.len() && spec_parse_number(s@.skip(idx as int))
                == Some((pair.0, s@.skip(pair.1 as int))),
            None => spec_parse_number(s@.skip(idx as int)) is None,
        },
{
    let ghost u = s@.skip(idx as int);
    let n = s.unicode_len();
    let mut k: usize = 0;
    while idx + k < n && char_to_digit(s.get_char(idx + k)).is_some()
        invariant
            idx <= s@.len(),
            n == s@.len(),
            0 <= k <= n - idx,
            u == s@.skip(idx as int),
            forall|i: int| 0 <= i < k ==> is_dec_digit(#[trigger] u[i]),
        decreases n - idx - k,
    {
        proof {
            assert(u[k as int] == s@[idx + k]);
        }
        k += 1;
    }
    proof {
        assert(u.len() == n - idx);
        if idx + k < n {
            assert(u[k as int] == s@[idx + k]);
            assert(!is_dec_digit(u[k as int]));
        }
        assert(u.take(k as int) =~= u.take(k as int));
        assert(forall|i: int| 0 <= i < k ==> u.take(k as int)[i] == u[i]);
        if k < u.len() {
            assert(u =~= u.take(k as int) + u.skip(k as int));
            assert(u.skip(k as int)[0] == u[k as int]);
            lemma_leading_digits_concat(u.take(k as int), u.skip(k as int));
        } else {
            assert(u =~= u.take(k as int) + Seq::<char>::empty());
            lemma_leading_digits_concat(u.take(k as int), Seq::<char>::empty());
        }
        assert(leading_digits(u) == k);
    }
    if k == 0 || k > 20 {
        return None;
    }
    let mut acc: u128 = 0;
    let mut i: usize = 0;
    proof {
        lemma_pow10_twenty();
        assert(u.take(0) =~= Seq::<char>::empty());
    }
    while i < k
        invariant
            idx <= s@.len(),
            n == s@.len(),
            u == s@.skip(idx as int),
            1 <= k <= 20,
            k <= n - idx,
            0 <= i <= k,
            forall|j: int| 0 <= j < k ==> is_dec_digit(#[trigger] u[j]),
            acc == val_of_digits(u.take(i as int)),
            acc < pow10(20),
            pow10(20) == 100000000000000000000,
        decreases k - i,
    {
        let c = s.get_char(idx + i);
        proof {
            assert(u[i as int] == s@[idx + i]);
        }
        let d = char_to_digit(c);
        proof {
            assert(is_dec_digit(u[i as int]));
        }
        let dv = d.unwrap();
        proof {
            assert(u.take(i + 1).drop_last() =~= u.take(i as int));
            assert(u.take(i + 1).last() == u[i as int]);
            assert(forall|j: int| 0 <= j < i + 1 ==> u.take(i + 1)[j] == u[j]);
            lemma_val_of_digits_bound(u.take(i + 1));
            lemma_pow10_le((i + 1) as nat, 20);
        }
        acc = acc * 10 + (dv as u128);
        i += 1;
    }
    if acc > (u64::MAX as u128) {
        return None;
    }
    proof {
        assert(u.take(k as int) =~= u.take(k as int));
        assert(val_of_digits(u.take(k as int)) == acc);
        assert(s@.skip(idx as int).skip(k as int) =~= s@.skip(idx + k));
    }
    Some(((acc as u64), idx + k))
}

/// One item read off the input at a position.
fn parse_item_at(s: &str, idx: usize) -> (r: Option<(Item, usize)>)
    requires
        idx <= s@.len(),
    ensures
        match r {
            Some(pair) => idx < pair.1 <= s@.len() && spec_parse_item(s@.skip(idx as int)) == Some(
                (pair.0@, s@.skip(pair.1 as int)),
            ),
            None => spec_parse_item(s@.skip(idx as int)) is None,
        },
{
    let ghost u = s@.skip(idx as int);
    let n = s.unicode_len();
    if idx >= n {
        return None;
    }
    let tag = s.get_char(idx);
    proof {
        assert(u[0] == s@[idx as int]);
        assert(u.skip(1) =~= s@.skip(idx + 1));
    }
    if tag == 's' {
        match parse_number_at(s, idx + 1) {
            None => None,
            Some((len, j)) => {
                proof {
                    assert(s@.skip(j as int).len() == n - j);
                }
                if j < n && s.get_char(j) == ':' {
                    proof {
                        assert(s@.skip(j as int)[0] == s@[j as int]);
                    }
                    if len <= (n - j - 1) as u64 {
                        let tlen = len as usize;
                        let text = s.substring_char(j + 1, j + 1 + tlen);
                        proof {
                            assert(s@.skip(j as int).len() >= 1 + len);
                            assert(s@.skip(j as int).subrange(1, 1 + len as int) =~= s@.subrange(
                                j + 1,
                                j + 1 + len as int,
                            ));
                            assert(s@.skip(j as int).skip(1 + len as int) =~= s@.skip(
                                j + 1 + len as int,
                            ));
                        }
                        Some((Item::Text(text.to_owned()), j + 1 + tlen))
                    } else {
                        proof {
                            assert(s@.skip(j as int).len() < 1 + len);
                        }
                        None
                    }
                } else {
                    proof {
                        if j < n {
                            assert(s@.skip(j as int)[0] == s@[j as int]);
                        } else {
                            assert(s@.skip(j as int).len() == 0);
                        }
                    }
                    None
                }
            },
        }
    } else if tag == 'n' {
        match parse_number_at(s, idx + 1) {
            None => None,
            Some((v, j)) => {
                if j < n && s.get_char(j) == ';' {
                    proof {
                        assert(s@.skip(j as int)[0] == s@[j as int]);
                        assert(s@.skip(j as int).skip(1) =~= s@.skip(j + 1));
                    }
                    Some((Item::Number(v), j + 1))
                } else {
                    proof {
                        if j < n {
                            assert(s@.skip(j as int)[0] == s@[j as int]);
                        } else {
                            assert(s@.skip(j as int).len() == 0);
                        }
                    }
                    None
                }
            },
        }
    } else if tag == 'f' {
        if idx + 1 < n {
            let b = s.get_char(idx + 1);
            proof {
                assert(u[1] == s@[idx + 1]);
                assert(u.skip(2) =~= s@.skip(idx + 2));
            }
            if b == '1' {
                Some((Item::Flag(true), idx + 2))
            } else if b == '0' {
                Some((Item::Flag(false), idx + 2))
            } else {
                None
            }
        } else {
            None
        }
    } else {
        None
    }
}

/// `count` items read off the input at a position.
fn parse_items_at(s: &str, idx: usize, count: u64) -> (r: Option<(Vec<Item>, usize)>)
    requires
        idx <= s@.len(),
    ensures
        match r {
            Some(pair) => idx <= pair.1 <= s@.len() && spec_parse_items(
                s@.skip(idx as int),
                count as nat,
            ) == Some((items_view(pair.0@), s@.skip(pair.1 as int))),
            None => spec_parse_items(s@.skip(idx as int), count as nat) is None,
        },
    decreases count,
{
    if count == 0 {
        let out: Vec<Item> = Vec::new();
        proof {
            assert(items_view(out@) =~= Seq::<ItemV>::empty());
        }
        return Some((out, idx));
    }
    match parse_item_at(s, idx) {
        None => None,
        Some((it, j)) => {
            match parse_items_at(s, j, count - 1) {
                None => None,
                Some((mut items, j2)) => {
                    let ghost tail_view = items_view(items@);
                    items.insert(0, it);
                    proof {
                        assert(items_view(items@) =~= seq![it@] + tail_view);
                    }
                    Some((items, j2))
                },
            }
        },
    }
}

/// A whole document decoded to its items, or nothing when the input is not
/// exactly one well-formed document.
pub fn decode_items(s: &str) -> (r: Option<Vec<Item>>)
    ensures
        match r {
            Some(items) => spec_decode_items(s@) == Some(items_view(items@)),
            None => spec_decode_items(s@) is None,
        },
{
    let n = s.unicode_len();
    proof {
        assert(s@.skip(0) =~= s@);
    }
    match parse_number_at(s, 0) {
        None => None,
        Some((count, j)) => {
            if j < n && s.get_char(j) == ';' {
                proof {
                    assert(s@.skip(j as int)[0] == s@[j as int]);
                    assert(s@.skip(j as int).skip(1) =~= s@.skip(j + 1));
                }
                match parse_items_at(s, j + 1, count) {
                    None => None,
                    Some((items, j2)) => {
                        if j2 == n {
                            proof {
                                assert(s@.skip(j2 as int).len() == 0);
                            }
                            Some(items)
                        } else {
                            proof {
                                assert(s@.skip(j2 as int).len() != 0);
                            }
                            None
                        }
                    },
                }
            } else {
                proof {
                    if j < n {
                        assert(s@.skip(j as int)[0] == s@[j as int]);
                    } else {
                        assert(s@.skip(j as int).len() == 0);
                    }
                }
                None
            }
        },
    }
}

/// The number a key algorithm is stored as.
pub open spec fn key_type_code(t: SshKeyType) -> u64 {
    match t {
        SshKeyType::Ed25519 => 0,
        SshKeyType::Rsa => 1,
    }
}

/// The key algorithm a stored number stands for.
pub open spec fn spec_key_type_of_code(v: u64) -> Option<SshKeyType> {
    if v == 0 {
        Some(SshKeyType::Ed25519)
    } else if v == 1 {
        Some(SshKeyType::Rsa)
    } else {
        None
    }
}

fn key_type_code_exec(t: SshKeyType) -> (r: u64)
    ensures
        r == key_type_code(t),
{
    match t {
        SshKeyType::Ed25519 => 0,
        SshKeyType::Rsa => 1,
    }
}

fn key_type_of_code_exec(v: u64) -> (r: Option<SshKeyType>)
    ensures
        r == spec_key_type_of_code(v),
{
    if v == 0 {
        Some(SshKeyType::Ed25519)
    } else if v == 1 {
        Some(SshKeyType::Rsa)
    } else {
        None
    }
}

/// The values a sequence of rules stands for.
pub open spec fn patterns_view(v: Seq<AutoSwitchPattern>) -> Seq<AutoSwitchPatternV> {
    v.map(|i: int, p: AutoSwitchPattern| p@)
}

/// The rule list flattened to items: pattern and identity id, rule by rule.
pub open spec fn spec_patterns_items(ps: Seq<AutoSwitchPatternV>) -> Seq<ItemV>
    decreases ps.len(),
{
    if ps.len() == 0 {
        Seq::empty()
    } else {
        seq![ItemV::Text(ps[0].pattern), ItemV::Text(ps[0].user_id)] + spec_patterns_items(
            ps.drop_first(),
        )
    }
}

/// `count` rules read back from a flattened list that must hold exactly
/// them.
pub open spec fn spec_patterns_of_items(l: Seq<ItemV>, count: nat) -> Option<
    Seq<AutoSwitchPatternV>,
>
    decreases count,
{
    if count == 0 {
        if l.len() == 0 {
            Some(Seq::empty())
        } else {
            None
        }
    } else if l.len() >= 2 && l[0] is Text && l[1] is Text {
        match spec_patterns_of_items(l.skip(2), (count - 1) as nat) {
            Some(ps) => Some(
                seq![AutoSwitchPatternV { pattern: l[0]->Text_0, user_id: l[1]->Text_0 }] + ps,
            ),
            None => None,
        }
    } else {
        None
    }
}

/// The whole configuration flattened to items: the two paths, the key
/// defaults, the three policy fields, then the rule count and the rules.
pub open spec fn spec_config_items(c: ConfigV) -> Seq<ItemV> {
    seq![
        ItemV::Text(c.users_file_path),
        ItemV::Text(c.default_sshkey_dir),
        ItemV::Number(key_type_code(c.default_sshkey_type)),
        ItemV::Number(c.default_sshkey_rounds as u64),
        ItemV::Flag(c.force_use_gus),
        ItemV::Number(c.min_sshkey_passphrase_length as u64),
        ItemV::Flag(c.auto_switch_enabled),
        ItemV::Number(c.auto_switch_patterns.len() as u64),
    ] + spec_patterns_items(c.auto_switch_patterns)
}

/// A configuration read back from its flattened items, when they have
/// exactly that shape.
pub open spec fn spec_config_of_items(l: Seq<ItemV>) -> Option<ConfigV> {
    if l.len() >= 8 && l[0] is Text && l[1] is Text && l[2] is Number && l[3] is Number
        && l[4] is Flag && l[5] is Number && l[6] is Flag && l[7] is Number {
        match spec_key_type_of_code(l[2]->Number_0) {
            Some(kt) => {
                if l[3]->Number_0 <= usize::MAX && l[5]->Number_0 <= usize::MAX {
                    match spec_patterns_of_items(l.skip(8), l[7]->Number_0 as nat) {
                        Some(ps) => Some(
                            ConfigV {
                                users_file_path: l[0]->Text_0,
                                default_sshkey_dir: l[1]->Text_0,
                                default_sshkey_type: kt,
                                default_sshkey_rounds: l[3]->Number_0 as usize,
                                force_use_gus: l[4]->Flag_0,
                                min_sshkey_passphrase_length: l[5]->Number_0 as usize,
                                auto_switch_enabled: l[6]->Flag_0,
                                auto_switch_patterns: ps,
                            },
                        ),
                        None => None,
                    }
                } else {
                    None
                }
            },
            None => None,
        }
    } else {
        None
    }
}

/// The persisted form of a configuration.
pub open spec fn spec_encode_config(c: ConfigV) -> Seq<char> {
    spec_encode_doc(spec_config_items(c))
}

/// What a string decodes to as a configuration.
pub open spec fn spec_decode_config(s: Seq<char>) -> Option<ConfigV> {
    match spec_decode_items(s) {
        Some(l) => spec_config_of_items(l),
        None => None,
    }
}

/// A configuration the codec can persist: the machine's limits on string
/// lengths and the rule count hold.
pub open spec fn config_encodable(c: ConfigV) -> bool {
    &&& c.users_file_path.len() <= u64::MAX
    &&& c.default_sshkey_dir.len() <= u64::MAX
    &&& c.auto_switch_patterns.len() <= u64::MAX
    &&& 8 + 2 * c.auto_switch_patterns.len() <= u64::MAX
    &&& forall|i: int|
        0 <= i < c.auto_switch_patterns.len() ==> (#[trigger] c.auto_switch_patterns[i]).pattern.len()
            <= u64::MAX && c.auto_switch_patterns[i].user_id.len() <= u64::MAX
}

proof fn lemma_patterns_items_wf(ps: Seq<AutoSwitchPatternV>)
    requires
        forall|i: int|
            0 <= i < ps.len() ==> (#[trigger] ps[i]).pattern.len() <= u64::MAX
                && ps[i].user_id.len() <= u64::MAX,
    ensures
        spec_patterns_items(ps).len() == 2 * ps.len(),
        items_bounded(spec_patterns_items(ps)),
        spec_patterns_of_items(spec_patterns_items(ps), ps.len()) == Some(ps),
    decreases ps.len(),
{
    if ps.len() == 0 {
    } else {
        let tail = ps.drop_first();
        assert(forall|i: int| 0 <= i < tail.len() ==> tail[i] == ps[i + 1]);
        lemma_patterns_items_wf(tail);
        let l = spec_patterns_items(ps);
        let head = seq![ItemV::Text(ps[0].pattern), ItemV::Text(ps[0].user_id)];
        assert(l == head + spec_patterns_items(tail));
        assert(l[0] == head[0] && l[1] == head[1]);
        assert(l.skip(2) =~= spec_patterns_items(tail));
        assert forall|i: int| 0 <= i < l.len() implies item_bounded(#[trigger] l[i]) by {
            if i >= 2 {
                assert(l[i] == spec_patterns_items(tail)[i - 2]);
            }
        }
        assert(seq![AutoSwitchPatternV { pattern: l[0]->Text_0, user_id: l[1]->Text_0 }] + tail
            =~= ps);
    }
}

/// The configuration round trip at the item level.
proof fn lemma_config_items_round_trip(c: ConfigV)
    requires
        config_encodable(c),
    ensures
        spec_config_items(c).len() == 8 + 2 * c.auto_switch_patterns.len(),
        items_bounded(spec_config_items(c)),
        spec_config_of_items(spec_config_items(c)) == Some(c),
{
    let l = spec_config_items(c);
    lemma_patterns_items_wf(c.auto_switch_patterns);
    assert(l.skip(8) =~= spec_patterns_items(c.auto_switch_patterns));
    assert forall|i: int| 0 <= i < l.len() implies item_bounded(#[trigger] l[i]) by {
        if i >= 8 {
            assert(l[i] == spec_patterns_items(c.auto_switch_patterns)[i - 8]);
        }
    }
    assert(spec_config_of_items(l) == Some(c));
}

/// Serialising a configuration and reading the text back yields a
/// configuration equal in all fields. The character-level codec and the
/// record layer both invert exactly.
pub proof fn lemma_config_round_trip(c: ConfigV)
    requires
        config_encodable(c),
    ensures
        spec_decode_config(spec_encode_config(c)) == Some(c),
{
    lemma_config_items_round_trip(c);
    lemma_decode_of_encode(spec_config_items(c));
}

/// Appending one more rule extends the flattened list at the end.
proof fn lemma_patterns_items_push(ps: Seq<AutoSwitchPatternV>, p: AutoSwitchPatternV)
    ensures
        spec_patterns_items(ps.push(p)) == spec_patterns_items(ps) + seq![
            ItemV::Text(p.pattern),
            ItemV::Text(p.user_id),
        ],
    decreases ps.len(),
{
    if ps.len() == 0 {
        assert(ps.push(p)[0] == p);
        assert(ps.push(p).drop_first() =~= Seq::<AutoSwitchPatternV>::empty());
        assert(spec_patterns_items(Seq::<AutoSwitchPatternV>::empty()) =~= Seq::<ItemV>::empty());
        assert(spec_patterns_items(ps.push(p)) =~= seq![
            ItemV::Text(p.pattern),
            ItemV::Text(p.user_id),
        ]);
        assert(spec_patterns_items(ps) + seq![ItemV::Text(p.pattern), ItemV::Text(p.user_id)] =~= seq![
            ItemV::Text(p.pattern),
            ItemV::Text(p.user_id),
        ]);
    } else {
        assert(ps.push(p)[0] == ps[0]);
        assert(ps.push(p).drop_first() =~= ps.drop_first().push(p));
        lemma_patterns_items_push(ps.drop_first(), p);
        assert(seq![ItemV::Text(ps[0].pattern), ItemV::Text(ps[0].user_id)] + (spec_patterns_items(
            ps.drop_first(),
        ) + seq![ItemV::Text(p.pattern), ItemV::Text(p.user_id)]) =~= (seq![
            ItemV::Text(ps[0].pattern),
            ItemV::Text(ps[0].user_id),
        ] + spec_patterns_items(ps.drop_first())) + seq![
            ItemV::Text(p.pattern),
            ItemV::Text(p.user_id),
        ]);
    }
}

/// The configuration flattened to items, as executable code.
pub fn config_to_items(c: &Config) -> (r: Vec<Item>)
    ensures
        items_view(r@) == spec_config_items(c@),
{
    let mut out: Vec<Item> = Vec::new();
    out.push(Item::Text(c.users_file_path.clone()));
    out.push(Item::Text(c.default_sshkey_dir.clone()));
    out.push(Item::Number(key_type_code_exec(c.default_sshkey_type)));
    out.push(Item::Number(c.default_sshkey_rounds as u64));
    out.push(Item::Flag(c.force_use_gus));
    out.push(Item::Number(c.min_sshkey_passphrase_length as u64));
    out.push(Item::Flag(c.auto_switch_enabled));
    out.push(Item::Number(c.auto_switch_patterns.len() as u64));
    let ghost header = items_view(out@);
    let ghost pats = c@.auto_switch_patterns;
    proof {
        assert(pats.take(0) =~= Seq::<AutoSwitchPatternV>::empty());
        assert(items_view(out@) =~= header + spec_patterns_items(pats.take(0)));
    }
    let n = c.auto_switch_patterns.len();
    let mut i: usize = 0;
    while i < n
        invariant
            n == c.auto_switch_patterns@.len(),
            n == pats.len(),
            pats == c@.auto_switch_patterns,
            0 <= i <= n,
            items_view(out@) == header + spec_patterns_items(pats.take(i as int)),
        decreases n - i,
    {
        let rule = &c.auto_switch_patterns[i];
        proof {
            assert(pats.take(i + 1) =~= pats.take(i as int).push(pats[i as int]));
            lemma_patterns_items_push(pats.take(i as int), pats[i as int]);
            assert(rule@ == pats[i as int]);
        }
        let t1 = Item::Text(rule.pattern.clone());
        let t2 = Item::Text(rule.user_id.clone());
        let ghost prev = out@;
        out.push(t1);
        out.push(t2);
        proof {
            assert(items_view(out@) =~= items_view(prev).push(ItemV::Text(
                pats[i as int].pattern,
            )).push(ItemV::Text(pats[i as int].user_id)));
            assert(items_view(prev).push(ItemV::Text(pats[i as int].pattern)).push(ItemV::Text(
                pats[i as int].user_id,
            )) =~= items_view(prev) + seq![
                ItemV::Text(pats[i as int].pattern),
                ItemV::Text(pats[i as int].user_id),
            ]);
            assert(items_view(out@) =~= header + spec_patterns_items(pats.take(i + 1)));
        }
        i += 1;
    }
    proof {
        assert(pats.take(n as int) =~= pats);
        assert(header + spec_patterns_items(pats) =~= spec_config_items(c@));
    }
    out
}

/// `count` rules read back from the flattened items from a position to
/// their end, as executable code.
fn patterns_of_items_at(items: &Vec<Item>, idx: usize, count: u64) -> (r: Option<
    Vec<AutoSwitchPattern>,
>)
    requires
        idx <= items@.len(),
    ensures
        match r {
            Some(ps) => spec_patterns_of_items(items_view(items@).skip(idx as int), count as nat)
                == Some(patterns_view(ps@)),
            None => spec_patterns_of_items(items_view(items@).skip(idx as int), count as nat)
                is None,
        },
    decreases count,
{
    let ghost l = items_view(items@).skip(idx as int);
    let n = items.len();
    if count == 0 {
        if idx == n {
            let out: Vec<AutoSwitchPattern> = Vec::new();
            proof {
                assert(patterns_view(out@) =~= Seq::<AutoSwitchPatternV>::empty());
            }
            return Some(out);
        } else {
            return None;
        }
    }
    if n - idx < 2 {
        return None;
    }
    proof {
        assert(l[0] == items_view(items@)[idx as int]);
        assert(l[1] == items_view(items@)[idx + 1]);
        assert(l.skip(2) =~= items_view(items@).skip(idx + 2));
    }
    let pattern: String = match &items[idx] {
        Item::Text(t) => t.clone(),
        _ => {
            return None;
        },
    };
    let user_id: String = match &items[idx + 1] {
        Item::Text(t) => t.clone(),
        _ => {
            return None;
        },
    };
    match patterns_of_items_at(items, idx + 2, count - 1) {
        None => None,
        Some(mut ps) => {
            let ghost tail_view = patterns_view(ps@);
            ps.insert(0, AutoSwitchPattern { pattern, user_id });
            proof {
                assert(patterns_view(ps@) =~= seq![
                    AutoSwitchPatternV { pattern: l[0]->Text_0, user_id: l[1]->Text_0 },
                ] + tail_view);
            }
            Some(ps)
        },
    }
}

/// A configuration read back from its flattened items, as executable code.
pub fn config_of_items(items: &Vec<Item>) -> (r: Option<Config>)
    ensures
        match r {
            Some(c) => spec_config_of_items(items_view(items@)) == Some(c@),
            None => spec_config_of_items(items_view(items@)) is None,
        },
{
    let ghost l = items_view(items@);
    if items.len() < 8 {
        return None;
    }
    let users_file_path: String = match &items[0] {
        Item::Text(t) => t.clone(),
        _ => {
            return None;
        },
    };
    let default_sshkey_dir: String = match &items[1] {
        Item::Text(t) => t.clone(),
        _ => {
            return None;
        },
    };
    let key_type_code_val: u64 = match &items[2] {
        Item::Number(v) => *v,
        _ => {
            return None;
        },
    };
    let rounds_val: u64 = match &items[3] {
        Item::Number(v) => *v,
        _ => {
            return None;
        },
    };
    let force_use_gus: bool = match &items[4] {
        Item::Flag(b) => *b,
        _ => {
            return None;
        },
    };
    let min_len_val: u64 = match &items[5] {
        Item::Number(v) => *v,
        _ => {
            return None;
        },
    };
    let auto_switch_enabled: bool = match &items[6] {
        Item::Flag(b) => *b,
        _ => {
            return None;
        },
    };
    let count: u64 = match &items[7] {
        Item::Number(v) => *v,
        _ => {
            return None;
        },
    };
    let default_sshkey_type: SshKeyType = match key_type_of_code_exec(key_type_code_val) {
        Some(kt) => kt,
        None => {
            return None;
        },
    };
    if rounds_val > (usize::MAX as u64) || min_len_val > (usize::MAX as u64) {
        return None;
    }
    proof {
        assert(l.skip(8) =~= items_view(items@).skip(8));
    }
    match patterns_of_items_at(items, 8, count) {
        None => None,
        Some(ps) => {
            let c = Config {
                users_file_path,
                default_sshkey_dir,
                default_sshkey_type,
                default_sshkey_rounds: rounds_val as usize,
                force_use_gus,
                min_sshkey_passphrase_length: min_len_val as usize,
                auto_switch_enabled,
                auto_switch_patterns: ps,
            };
            proof {
                assert(c@.auto_switch_patterns == patterns_view(c.auto_switch_patterns@));
                assert(spec_config_of_items(l) == Some(c@));
            }
            Some(c)
        },
    }
}

/// The persisted form of a configuration, as a string.
pub fn encode_config(c: &Config) -> (r: String)
    ensures
        r@ == spec_encode_config(c@),
{
    let items = config_to_items(c);
    encode_items(&items)
}

/// A configuration read back from its persisted form; `None` when the text
/// is not exactly one well-formed configuration document.
pub fn decode_config(s: &str) -> (r: Option<Config>)
    ensures
        match r {
            Some(c) => spec_decode_config(s@) == Some(c@),
            None => spec_decode_config(s@) is None,
        },
{
    match decode_items(s) {
        None => None,
        Some(items) => config_of_items(&items),
    }
}

/// One registry entry flattened to items: id, name, email, whether an
/// explicit key path is set, and that path (empty when none is).
pub open spec fn spec_user_items(u: UserV) -> Seq<ItemV> {
    seq![
        ItemV::Text(u.id),
        ItemV::Text(u.name),
        ItemV::Text(u.email),
        ItemV::Flag(u.sshkey_path is Some),
        ItemV::Text(
            match u.sshkey_path {
                Some(p) => p,
                None => Seq::empty(),
            },
        ),
    ]
}

/// The registry's entries flattened to items, entry by entry.
pub open spec fn spec_users_entries(us: Seq<UserV>) -> Seq<ItemV>
    decreases us.len(),
{
    if us.len() == 0 {
        Seq::empty()
    } else {
        spec_user_items(us[0]) + spec_users_entries(us.drop_first())
    }
}

/// The whole registry flattened to items: the entry count, then the
/// entries.
pub open spec fn spec_users_items(us: Seq<UserV>) -> Seq<ItemV> {
    seq![ItemV::Number(us.len() as u64)] + spec_users_entries(us)
}

/// `count` registry entries read back from a flattened list that must hold
/// exactly them.
pub open spec fn spec_users_of_entries(l: Seq<ItemV>, count: nat) -> Option<Seq<UserV>>
    decreases count,
{
    if count == 0 {
        if l.len() == 0 {
            Some(Seq::empty())
        } else {
            None
        }
    } else if l.len() >= 5 && l[0] is Text && l[1] is Text && l[2] is Text && l[3] is Flag
        && l[4] is Text {
        match spec_users_of_entries(l.skip(5), (count - 1) as nat) {
            Some(us) => Some(
                seq![
                    UserV {
                        id: l[0]->Text_0,
                        name: l[1]->Text_0,
                        email: l[2]->Text_0,
                        sshkey_path: if l[3]->Flag_0 {
                            Some(l[4]->Text_0)
                        } else {
                            None
                        },
                    },
                ] + us,
            ),
            None => None,
        }
    } else {
        None
    }
}

/// No two entries share an id: what the registry's own invariant says, over
/// plain values.
pub open spec fn unique_ids(us: Seq<UserV>) -> bool {
    forall|i: int, j: int| 0 <= i < j < us.len() ==> us[i].id != us[j].id
}

/// A registry read back from its flattened items: the announced number of
/// entries, each well-shaped, with all ids distinct.
pub open spec fn spec_users_of_items(l: Seq<ItemV>) -> Option<Seq<UserV>> {
    if l.len() >= 1 && l[0] is Number {
        match spec_users_of_entries(l.skip(1), l[0]->Number_0 as nat) {
            Some(us) => {
                if unique_ids(us) {
                    Some(us)
                } else {
                    None
                }
            },
            None => None,
        }
    } else {
        None
    }
}

/// The persisted form of a registry.
pub open spec fn spec_encode_users(us: Seq<UserV>) -> Seq<char> {
    spec_encode_doc(spec_users_items(us))
}

/// What a string decodes to as a registry.
pub open spec fn spec_decode_users(s: Seq<char>) -> Option<Seq<UserV>> {
    match spec_decode_items(s) {
        Some(l) => spec_users_of_items(l),
        None => None,
    }
}

/// A registry the codec can persist: the machine's limits on string lengths
/// and the entry count hold.
pub open spec fn users_encodable(us: Seq<UserV>) -> bool {
    &&& us.len() <= u64::MAX
    &&& 1 + 5 * us.len() <= u64::MAX
    &&& forall|i: int|
        0 <= i < us.len() ==> (#[trigger] us[i]).id.len() <= u64::MAX && us[i].name.len()
            <= u64::MAX && us[i].email.len() <= u64::MAX && (match us[i].sshkey_path {
            Some(p) => p.len() <= u64::MAX,
            None => true,
        })
}

proof fn lemma_users_entries_wf(us: Seq<UserV>)
    requires
        forall|i: int|
            0 <= i < us.len() ==> (#[trigger] us[i]).id.len() <= u64::MAX && us[i].name.len()
                <= u64::MAX && us[i].email.len() <= u64::MAX && (match us[i].sshkey_path {
                Some(p) => p.len() <= u64::MAX,
                None => true,
            }),
    ensures
        spec_users_entries(us).len() == 5 * us.len(),
        items_bounded(spec_users_entries(us)),
        spec_users_of_entries(spec_users_entries(us), us.len()) == Some(us),
    decreases us.len(),
{
    if us.len() == 0 {
    } else {
        let tail = us.drop_first();
        assert(forall|i: int| 0 <= i < tail.len() ==> tail[i] == us[i + 1]);
        lemma_users_entries_wf(tail);
        let l = spec_users_entries(us);
        let head = spec_user_items(us[0]);
        assert(l == head + spec_users_entries(tail));
        assert(l[0] == head[0] && l[1] == head[1] && l[2] == head[2] && l[3] == head[3] && l[4]
            == head[4]);
        assert(l.skip(5) =~= spec_users_entries(tail));
        assert forall|i: int| 0 <= i < l.len() implies item_bounded(#[trigger] l[i]) by {
            if i >= 5 {
                assert(l[i] == spec_users_entries(tail)[i - 5]);
            }
        }
        assert(seq![
            UserV {
                id: l[0]->Text_0,
                name: l[1]->Text_0,
                email: l[2]->Text_0,
                sshkey_path: if l[3]->Flag_0 {
                    Some(l[4]->Text_0)
                } else {
                    None
                },
            },
        ] + tail =~= us);
    }
}

/// Serialising a registry and reading the text back yields a registry equal
/// in all fields, entry by entry.
pub proof fn lemma_users_round_trip(us: Seq<UserV>)
    requires
        users_encodable(us),
        unique_ids(us),
    ensures
        spec_decode_users(spec_encode_users(us)) == Some(us),
{
    let l = spec_users_items(us);
    lemma_users_entries_wf(us);
    assert(l.skip(1) =~= spec_users_entries(us));
    assert forall|i: int| 0 <= i < l.len() implies item_bounded(#[trigger] l[i]) by {
        if i >= 1 {
            assert(l[i] == spec_users_entries(us)[i - 1]);
        }
    }
    assert(spec_users_of_items(l) == Some(us));
    lemma_decode_of_encode(l);
}

/// Appending one more entry extends the flattened list at the end.
proof fn lemma_users_entries_push(us: Seq<UserV>, u: UserV)
    ensures
        spec_users_entries(us.push(u)) == spec_users_entries(us) + spec_user_items(u),
    decreases us.len(),
{
    if us.len() == 0 {
        assert(us.push(u)[0] == u);
        assert(us.push(u).drop_first() =~= Seq::<UserV>::empty());
        assert(spec_users_entries(Seq::<UserV>::empty()) =~= Seq::<ItemV>::empty());
        assert(spec_users_entries(us.push(u)) =~= spec_user_items(u));
        assert(spec_users_entries(us) + spec_user_items(u) =~= spec_user_items(u));
    } else {
        assert(us.push(u)[0] == us[0]);
        assert(us.push(u).drop_first() =~= us.drop_first().push(u));
        lemma_users_entries_push(us.drop_first(), u);
        assert(spec_user_items(us[0]) + (spec_users_entries(us.drop_first()) + spec_user_items(u))
            =~= (spec_user_items(us[0]) + spec_users_entries(us.drop_first())) + spec_user_items(
            u,
        ));
    }
}

/// The registry flattened to items, as executable code.
pub fn users_to_items(users: &Users) -> (r: Vec<Item>)
    ensures
        items_view(r@) == spec_users_items(users@),
{
    let ghost us = users@;
    let entries = users.list();
    let mut out: Vec<Item> = Vec::new();
    out.push(Item::Number(entries.len() as u64));
    let ghost header = items_view(out@);
    proof {
        assert(us.take(0) =~= Seq::<UserV>::empty());
        assert(items_view(out@) =~= header + spec_users_entries(us.take(0)));
    }
    let n = entries.len();
    let mut i: usize = 0;
    while i < n
        invariant
            n == entries@.len(),
            n == us.len(),
            us == users@,
            forall|j: int| 0 <= j < n ==> entries@[j]@ == us[j],
            header == seq![ItemV::Number(us.len() as u64)],
            0 <= i <= n,
            items_view(out@) == header + spec_users_entries(us.take(i as int)),
        decreases n - i,
    {
        let user = entries[i];
        proof {
            assert(us.take(i + 1) =~= us.take(i as int).push(us[i as int]));
            lemma_users_entries_push(us.take(i as int), us[i as int]);
            assert(user@ == us[i as int]);
        }
        let t_id = Item::Text(user.id.clone());
        let t_name = Item::Text(user.name.clone());
        let t_email = Item::Text(user.email.clone());
        let has_path: bool = match &user.sshkey_path {
            Some(_) => true,
            None => false,
        };
        let t_flag = Item::Flag(has_path);
        let t_path: Item = match &user.sshkey_path {
            Some(p) => Item::Text(p.clone()),
            None => Item::Text(String::new()),
        };
        let ghost prev = out@;
        out.push(t_id);
        out.push(t_name);
        out.push(t_email);
        out.push(t_flag);
        out.push(t_path);
        proof {
            assert(items_view(out@) =~= items_view(prev) + spec_user_items(us[i as int]));
            assert(items_view(out@) =~= header + spec_users_entries(us.take(i + 1)));
        }
        i += 1;
    }
    proof {
        assert(us.take(n as int) =~= us);
        assert(header + spec_users_entries(us) =~= spec_users_items(us));
    }
    out
}

/// The values a sequence of users stands for.
pub open spec fn users_list_view(v: Seq<User>) -> Seq<UserV> {
    v.map(|i: int, u: User| u@)
}

/// `count` registry entries read back from the flattened items from a
/// position to their end, as executable code.
fn users_of_items_at(items: &Vec<Item>, idx: usize, count: u64) -> (r: Option<Vec<User>>)
    requires
        idx <= items@.len(),
    ensures
        match r {
            Some(us) => spec_users_of_entries(items_view(items@).skip(idx as int), count as nat)
                == Some(users_list_view(us@)),
            None => spec_users_of_entries(items_view(items@).skip(idx as int), count as nat)
                is None,
        },
    decreases count,
{
    let ghost l = items_view(items@).skip(idx as int);
    let n = items.len();
    if count == 0 {
        if idx == n {
            let out: Vec<User> = Vec::new();
            proof {
                assert(users_list_view(out@) =~= Seq::<UserV>::empty());
            }
            return Some(out);
        } else {
            return None;
        }
    }
    if n - idx < 5 {
        return None;
    }
    proof {
        assert(l[0] == items_view(items@)[idx as int]);
        assert(l[1] == items_view(items@)[idx + 1]);
        assert(l[2] == items_view(items@)[idx + 2]);
        assert(l[3] == items_view(items@)[idx + 3]);
        assert(l[4] == items_view(items@)[idx + 4]);
        assert(l.skip(5) =~= items_view(items@).skip(idx + 5));
    }
    let id: String = match &items[idx] {
        Item::Text(t) => t.clone(),
        _ => {
            return None;
        },
    };
    let name: String = match &items[idx + 1] {
        Item::Text(t) => t.clone(),
        _ => {
            return None;
        },
    };
    let email: String = match &items[idx + 2] {
        Item::Text(t) => t.clone(),
        _ => {
            return None;
        },
    };
    let has_path: bool = match &items[idx + 3] {
        Item::Flag(b) => *b,
        _ => {
            return None;
        },
    };
    let path: String = match &items[idx + 4] {
        Item::Text(t) => t.clone(),
        _ => {
            return None;
        },
    };
    let user = User {
        id,
        name,
        email,
        sshkey_path: if has_path {
            Some(path)
        } else {
            None
        },
    };
    match users_of_items_at(items, idx + 5, count - 1) {
        None => None,
        Some(mut us) => {
            let ghost tail_view = users_list_view(us@);
            let ghost uv = user@;
            us.insert(0, user);
            proof {
                assert(users_list_view(us@) =~= seq![uv] + tail_view);
                assert(uv == UserV {
                    id: l[0]->Text_0,
                    name: l[1]->Text_0,
                    email: l[2]->Text_0,
                    sshkey_path: if l[3]->Flag_0 {
                        Some(l[4]->Text_0)
                    } else {
                        None
                    },
                });
            }
            Some(us)
        },
    }
}

/// A registry read back from its flattened items, as executable code: the
/// entries are re-added one by one, so the uniqueness invariant is
/// re-established (and a list with a repeated id is refused).
pub fn users_of_items(items: &Vec<Item>) -> (r: Option<Users>)
    ensures
        match r {
            Some(us) => us.wf() && spec_users_of_items(items_view(items@)) == Some(us@),
            None => spec_users_of_items(items_view(items@)) is None,
        },
{
    let ghost l = items_view(items@);
    if items.len() < 1 {
        return None;
    }
    let count: u64 = match &items[0] {
        Item::Number(v) => *v,
        _ => {
            return None;
        },
    };
    proof {
        assert(l.skip(1) =~= items_view(items@).skip(1));
    }
    let parsed = match users_of_items_at(items, 1, count) {
        Some(us) => us,
        None => {
            return None;
        },
    };
    let ghost pv = users_list_view(parsed@);
    let mut registry = Users::new();
    let n = parsed.len();
    let mut i: usize = 0;
    while i < n
        invariant
            n == parsed@.len(),
            n == pv.len(),
            pv == users_list_view(parsed@),
            l == items_view(items@),
            l.len() >= 1 && l[0] is Number && l[0]->Number_0 == count,
            spec_users_of_entries(l.skip(1), count as nat) == Some(pv),
            0 <= i <= n,
            registry.wf(),
            registry@ == pv.take(i as int),
        decreases n - i,
    {
        let user = parsed[i].clone();
        proof {
            assert(user@ == pv[i as int]);
        }
        let added = registry.add(user);
        match added {
            Ok(()) => {
                proof {
                    assert(registry@ =~= pv.take(i + 1));
                }
            },
            Err(_) => {
                proof {
                    let iv = i as int;
                    assert(registry.contains_id(pv[iv].id));
                    let k = choose|k: int|
                        0 <= k < registry@.len() && registry@[k].id == pv[iv].id;
                    assert(registry@[k] == pv.take(iv)[k]);
                    assert(pv.take(iv)[k] == pv[k]);
                    assert(0 <= k < iv < pv.len());
                    assert(pv[k].id == pv[iv].id);
                    assert(!unique_ids(pv));
                    assert(l.len() >= 1 && l[0] is Number && l[0]->Number_0 == count);
                    assert(spec_users_of_entries(l.skip(1), count as nat) == Some(pv));
                    assert(spec_users_of_items(l) is None);
                }
                return None;
            },
        }
        i += 1;
    }
    proof {
        assert(pv.take(n as int) =~= pv);
        assert(unique_ids(pv)) by {
            assert(forall|i: int, j: int|
                0 <= i < j < pv.len() ==> registry@[i].id != registry@[j].id);
        }
        assert(spec_users_of_items(l) == Some(pv));
    }
    Some(registry)
}

/// The persisted form of a registry, as a string.
pub fn encode_users(users: &Users) -> (r: String)
    ensures
        r@ == spec_encode_users(users@),
{
    let items = users_to_items(users);
    encode_items(&items)
}

/// A registry read back from its persisted form; `None` when the text is
/// not exactly one well-formed registry document with distinct ids.
pub fn decode_users(s: &str) -> (r: Option<Users>)
    ensures
        match r {
            Some(us) => us.wf() && spec_decode_users(s@) == Some(us@),
            None => spec_decode_users(s@) is None,
        },
{
    match decode_items(s) {
        None => None,
        Some(items) => users_of_items(&items),
    }
}

} // verus!
