use vstd::prelude::*;

use crate::card::{CardInfo, SubCard};
use crate::pile::Pile;
use crate::cost::{color_letters, ColorIdentity};
use crate::text::{
    chars_of, contains, contains_exec, eq_chars, lower_all, parse_unsigned, parse_unsigned_exec,
    slice, split, to_ascii_lowercase, trim, trim_exec,
};
use crate::types::{
    covers, main_types_of_words, set_compare, sub_types_of_words, super_types_of_words,
    types_of_words, MainTypes, SubTypes, SuperTypes, TypeCatalog, Types,
};
use std::cmp::Ordering;

verus! {

/// How a searched value must compare with the card's.
#[derive(Clone, Copy, PartialEq, Eq, Structural, Debug)]
pub enum Order {
    Greater,
    Less,
    Equal,
    GreaterEqual,
    LessEqual,
}

/// What a search term looks at.
#[derive(Clone, Copy, PartialEq, Eq, Structural, Debug)]
pub enum SearchKey {
    Name,
    Cmc,
    Type,
    SuperType,
    MainType,
    SubType,
    Text,
    Color,
    Power,
    Toughness,
    Loyalty,
}

/// One term of a search: whether it is negated, what it looks at, the value
/// and how it compares.
pub struct Pair {
    pub negate: bool,
    pub key: SearchKey,
    pub value: Vec<char>,
    pub order: Order,
}

impl Pair {
    pub open spec fn view(&self) -> (bool, SearchKey, Seq<char>, Order) {
        (self.negate, self.key, self.value@, self.order)
    }
}

/// Whether the comparison `o` satisfies the order a search term asks for.
pub open spec fn order_holds(o: Ordering, order: Order) -> bool {
    match order {
        Order::Greater => o == Ordering::Greater,
        Order::Less => o == Ordering::Less,
        Order::Equal => o == Ordering::Equal,
        Order::GreaterEqual => o == Ordering::Greater || o == Ordering::Equal,
        Order::LessEqual => o == Ordering::Less || o == Ordering::Equal,
    }
}

impl Order {
    /// Whether the comparison `o` satisfies this order.
    pub fn holds(&self, o: Ordering) -> (r: bool)
        ensures
            r == order_holds(o, *self),
    {
        match self {
            Order::Greater => matches!(o, Ordering::Greater),
            Order::Less => matches!(o, Ordering::Less),
            Order::Equal => matches!(o, Ordering::Equal),
            Order::GreaterEqual => matches!(o, Ordering::Greater | Ordering::Equal),
            Order::LessEqual => matches!(o, Ordering::Less | Ordering::Equal),
        }
    }
}

/// The largest `usize` as an integer.
pub open spec fn max_usize() -> int {
    usize::MAX as int
}

/// A small number as an integer.
pub open spec fn num(x: u8) -> int {
    x as int
}

/// How two numbers compare.
pub open spec fn compare_nums(a: int, b: int) -> Ordering {
    if a < b {
        Ordering::Less
    } else if a > b {
        Ordering::Greater
    } else {
        Ordering::Equal
    }
}

fn compare_u8(a: u8, b: u8) -> (r: Ordering)
    ensures
        r == compare_nums(num(a), num(b)),
{
    if a < b {
        Ordering::Less
    } else if a > b {
        Ordering::Greater
    } else {
        Ordering::Equal
    }
}

/// The thing a search key names, by its long or short name.
pub open spec fn key_of(k: Seq<char>) -> Option<SearchKey> {
    if k == "name"@ || k == "n"@ {
        Some(SearchKey::Name)
    } else if k == "cmc"@ || k == "cost"@ {
        Some(SearchKey::Cmc)
    } else if k == "type"@ || k == "t"@ {
        Some(SearchKey::Type)
    } else if k == "super_type"@ || k == "ut"@ {
        Some(SearchKey::SuperType)
    } else if k == "main_type"@ || k == "mt"@ {
        Some(SearchKey::MainType)
    } else if k == "sub_type"@ || k == "st"@ {
        Some(SearchKey::SubType)
    } else if k == "text"@ || k == "o"@ {
        Some(SearchKey::Text)
    } else if k == "color"@ || k == "c"@ {
        Some(SearchKey::Color)
    } else if k == "power"@ || k == "p"@ {
        Some(SearchKey::Power)
    } else if k == "loyalty"@ || k == "l"@ {
        Some(SearchKey::Loyalty)
    } else if k == "toughness"@ || k == "h"@ {
        Some(SearchKey::Toughness)
    } else {
        None
    }
}

fn is_word(k: &[char], w: &str) -> (r: bool)
    ensures
        r == (k@ == w@),
{
    let c = chars_of(w);
    eq_chars(k, &c)
}

/// The thing a search key names, by its long or short name.
pub fn get_key(key: &[char]) -> (r: Option<SearchKey>)
    ensures
        r == key_of(key@),
{
    if is_word(key, "name") || is_word(key, "n") {
        Some(SearchKey::Name)
    } else if is_word(key, "cmc") || is_word(key, "cost") {
        Some(SearchKey::Cmc)
    } else if is_word(key, "type") || is_word(key, "t") {
        Some(SearchKey::Type)
    } else if is_word(key, "super_type") || is_word(key, "ut") {
        Some(SearchKey::SuperType)
    } else if is_word(key, "main_type") || is_word(key, "mt") {
        Some(SearchKey::MainType)
    } else if is_word(key, "sub_type") || is_word(key, "st") {
        Some(SearchKey::SubType)
    } else if is_word(key, "text") || is_word(key, "o") {
        Some(SearchKey::Text)
    } else if is_word(key, "color") || is_word(key, "c") {
        Some(SearchKey::Color)
    } else if is_word(key, "power") || is_word(key, "p") {
        Some(SearchKey::Power)
    } else if is_word(key, "loyalty") || is_word(key, "l") {
        Some(SearchKey::Loyalty)
    } else if is_word(key, "toughness") || is_word(key, "h") {
        Some(SearchKey::Toughness)
    } else {
        None
    }
}

/// Where the reading of a search text stands after some characters.
pub struct Scan {
    pub quotes: bool,
    pub quoted: bool,
    pub order: Option<Order>,
    pub k: int,
    pub v: int,
    pub pairs: Seq<(bool, SearchKey, Seq<char>, Order)>,
    pub key: Option<SearchKey>,
    pub negate: bool,
    pub failed: bool,
}

/// The key text of the term that starts at `k`, without a leading `!`.
pub open spec fn key_text(text: Seq<char>, st: Scan, i: int) -> Seq<char> {
    text.subrange(
        if st.negate {
            st.k + 1
        } else {
            st.k
        },
        i,
    )
}

/// Whether the key text of the term can be cut out.
pub open spec fn key_text_ok(st: Scan, i: int) -> bool {
    (if st.negate {
        st.k + 1
    } else {
        st.k
    }) <= i
}

/// An operator character outside quotes: its value starts after it, and
/// when no order is set yet the key before it decides the order.
pub open spec fn scan_operator(text: Seq<char>, st: Scan, i: int, first: Order) -> Scan {
    if st.order is None {
        if !key_text_ok(st, i) {
            Scan { v: i + 1, failed: true, ..st }
        } else {
            let key = key_of(key_text(text, st, i));
            Scan {
                v: i + 1,
                key,
                order: if key is Some {
                    Some(first)
                } else {
                    None
                },
                ..st
            }
        }
    } else {
        Scan { v: i + 1, ..st }
    }
}

/// One step of reading the search text: character `c` at position `i`.
pub open spec fn scan_step(text: Seq<char>, st: Scan, i: int) -> Scan {
    let c = text[i];
    if st.failed {
        st
    } else if c == '!' {
        Scan { negate: true, ..st }
    } else if c == '"' {
        Scan { quoted: true, quotes: !st.quotes, ..st }
    } else if c == '=' && !st.quotes {
        if st.order is None {
            scan_operator(text, st, i, Order::Equal)
        } else if st.order == Some(Order::Greater) {
            Scan { v: i + 1, order: Some(Order::GreaterEqual), ..st }
        } else if st.order == Some(Order::Less) {
            Scan { v: i + 1, order: Some(Order::LessEqual), ..st }
        } else {
            Scan { v: i + 1, ..st }
        }
    } else if c == '<' && !st.quotes {
        scan_operator(text, st, i, Order::Less)
    } else if c == '>' && !st.quotes {
        scan_operator(text, st, i, Order::Greater)
    } else if c == ' ' && !st.quotes {
        let reset = Scan { order: None, quoted: false, negate: false, ..st };
        if st.order is Some && st.key is Some {
            if st.quoted && st.v + 1 > i - 1 {
                Scan { failed: true, ..reset }
            } else {
                let value = if st.quoted {
                    text.subrange(st.v + 1, i - 1)
                } else {
                    text.subrange(st.v, i)
                };
                Scan {
                    pairs: st.pairs.push((st.negate, st.key->0, value, st.order->0)),
                    k: i + 1,
                    ..reset
                }
            }
        } else {
            reset
        }
    } else {
        st
    }
}

/// The state after reading the first `n` characters of the search text.
pub open spec fn scan(text: Seq<char>, n: int) -> Scan
    decreases n,
{
    if n <= 0 {
        Scan {
            quotes: false,
            quoted: false,
            order: None,
            k: 0,
            v: 0,
            pairs: seq![],
            key: None,
            negate: false,
            failed: false,
        }
    } else {
        scan_step(text, scan(text, n - 1), n - 1)
    }
}

/// The terms of a search text: `key=value`, `key<value`, `key>=value` and
/// so on, with a leading `!` to negate and quotes around values with
/// spaces; what is left after the last term is a name to look for. `None`
/// when a quoted value cannot be cut out of the text.
pub open spec fn pairs_of(text: Seq<char>) -> Option<Seq<(bool, SearchKey, Seq<char>, Order)>> {
    let st = scan(text, text.len() as int);
    let n = text.len() as int;
    if st.failed {
        None
    } else if st.order is Some && st.key is Some {
        if st.quoted && st.v + 1 > n - 1 {
            None
        } else {
            Some(
                st.pairs.push(
                    (
                        st.negate,
                        st.key->0,
                        if st.quoted {
                            text.subrange(st.v + 1, n - 1)
                        } else {
                            text.subrange(st.v, n)
                        },
                        st.order->0,
                    ),
                ),
            )
        }
    } else {
        Some(st.pairs.push((false, SearchKey::Name, text.subrange(st.k, n), Order::Equal)))
    }
}

/// Scan positions stay inside the text.
pub open spec fn scan_wf(st: Scan, n: int) -> bool {
    0 <= st.k <= n && 0 <= st.v <= n
}

proof fn lemma_scan_wf(text: Seq<char>, n: int)
    requires
        0 <= n <= text.len(),
    ensures
        scan_wf(scan(text, n), n),
    decreases n,
{
    if n > 0 {
        lemma_scan_wf(text, n - 1);
    }
}

proof fn lemma_scan_failed_sticks(text: Seq<char>, a: int, b: int)
    requires
        0 <= a <= b,
        scan(text, a).failed,
    ensures
        scan(text, b).failed,
    decreases b - a,
{
    if a < b {
        lemma_scan_failed_sticks(text, a, b - 1);
    }
}

/// Splits a search text into its terms; `None` when a quoted value cannot
/// be cut out of it.
pub fn get_pairs(text: &[char]) -> (r: Option<Vec<Pair>>)
    ensures
        r matches Some(ps) ==> pairs_of(text@) == Some(ps@.map_values(|p: Pair| p@)),
        r is None ==> pairs_of(text@) is None,
{
    let mut quotes = false;
    let mut quoted = false;
    let mut order: Option<Order> = None;
    let mut k: usize = 0;
    let mut v: usize = 0;
    let mut pairs: Vec<Pair> = Vec::new();
    let mut key: Option<SearchKey> = None;
    let mut negate = false;
    let ghost t = text@;
    for i in 0..text.len()
        invariant
            t == text@,
            ({
                let st = scan(t, i as int);
                &&& !st.failed
                &&& st.quotes == quotes
                &&& st.quoted == quoted
                &&& st.order == order
                &&& st.k == k
                &&& st.v == v
                &&& st.pairs == pairs@.map_values(|p: Pair| p@)
                &&& st.key == key
                &&& st.negate == negate
            }),
            k <= i,
            v <= i,
    {
        let c = text[i];
        let ghost pre = pairs@;
        if c == '!' {
            negate = true;
        } else if c == '"' {
            quoted = true;
            quotes = !quotes;
        } else if (c == '=' || c == '<' || c == '>') && !quotes {
            v = i + 1;
            if order.is_none() {
                let start = if negate {
                    k + 1
                } else {
                    k
                };
                if start > i {
                    proof {
                        lemma_scan_failed_sticks(t, i + 1, t.len() as int);
                    }
                    return None;
                }
                let ktext = slice(text, start, i);
                key = get_key(&ktext);
                if key.is_some() {
                    order = Some(
                        if c == '=' {
                            Order::Equal
                        } else if c == '<' {
                            Order::Less
                        } else {
                            Order::Greater
                        },
                    );
                }
            } else if c == '=' {
                if order == Some(Order::Greater) {
                    order = Some(Order::GreaterEqual);
                } else if order == Some(Order::Less) {
                    order = Some(Order::LessEqual);
                }
            }
        } else if c == ' ' && !quotes {
            if order.is_some() && key.is_some() {
                let value = if quoted {
                    if i < 2 || v > i - 2 {
                        proof {
                            lemma_scan_failed_sticks(t, i + 1, t.len() as int);
                        }
                        return None;
                    }
                    slice(text, v + 1, i - 1)
                } else {
                    slice(text, v, i)
                };
                pairs.push(
                    Pair { negate, key: key.unwrap(), value, order: order.unwrap() },
                );
                assert(pairs@.map_values(|p: Pair| p@) =~= pre.map_values(|p: Pair| p@).push(
                    pairs@[pre.len() as int]@,
                ));
                k = i + 1;
            }
            order = None;
            quoted = false;
            negate = false;
        }
    }
    let n = text.len();
    if order.is_some() && key.is_some() {
        let value = if quoted {
            if n < 2 || v > n - 2 {
                return None;
            }
            slice(text, v + 1, n - 1)
        } else {
            slice(text, v, n)
        };
        let ghost pre = pairs@;
        pairs.push(Pair { negate, key: key.unwrap(), value, order: order.unwrap() });
        assert(pairs@.map_values(|p: Pair| p@) =~= pre.map_values(|p: Pair| p@).push(
            pairs@[pre.len() as int]@,
        ));
    } else {
        let value = slice(text, k, n);
        let ghost pre = pairs@;
        pairs.push(Pair { negate: false, key: SearchKey::Name, value, order: Order::Equal });
        assert(pairs@.map_values(|p: Pair| p@) =~= pre.map_values(|p: Pair| p@).push(
            pairs@[pre.len() as int]@,
        ));
    }
    Some(pairs)
}


/// Whether one search term can be evaluated on a card face: a mana value
/// compared with a number must fit in a byte, and a type count compared
/// with a number must fit in a `usize`.
pub open spec fn term_defined(info: CardInfo, key: SearchKey, value: Seq<char>) -> bool {
    match key {
        SearchKey::Cmc => parse_unsigned(value, 255) is Some ==> info.mana_cost.spec_total() <= 255,
        SearchKey::Type => parse_unsigned(value, max_usize()) is Some ==> info.card_type.spec_len()
            <= usize::MAX,
        _ => true,
    }
}

/// The words of a searched value.
pub open spec fn words(value: Seq<char>) -> Seq<Seq<char>> {
    split(value, seq![' '])
}

/// What one search term says of a card face before negation; `None` when
/// the value cannot be read for the key, which fails the term whether
/// negated or not.
pub open spec fn term_result(
    info: CardInfo,
    names: Seq<Seq<char>>,
    key: SearchKey,
    value: Seq<char>,
    order: Order,
) -> Option<bool> {
    match key {
        SearchKey::Name => Some(contains(lower_all(info.name@), value)),
        SearchKey::Text => Some(contains(lower_all(info.text@), value)),
        SearchKey::Cmc => match parse_unsigned(value, 255) {
            Some(v) => Some(order_holds(compare_nums(info.mana_cost.spec_total(), v), order)),
            None => None,
        },
        SearchKey::Type => match parse_unsigned(value, max_usize()) {
            Some(c) => Some(info.card_type.spec_len() == c),
            None => {
                let t = types_of_words(names, words(value));
                match set_compare(
                    covers(info.card_type.super_type@, t.0) && covers(info.card_type.main_type@, t.1)
                        && covers(info.card_type.sub_type@, t.2),
                    covers(t.0, info.card_type.super_type@) && covers(t.1, info.card_type.main_type@)
                        && covers(t.2, info.card_type.sub_type@),
                ) {
                    Some(o) => Some(order_holds(o, order)),
                    None => None,
                }
            },
        },
        SearchKey::SuperType => match parse_unsigned(value, max_usize()) {
            Some(c) => Some(info.card_type.super_type@.len() == c),
            None => {
                let t = super_types_of_words(words(value));
                match set_compare(
                    covers(info.card_type.super_type@, t),
                    covers(t, info.card_type.super_type@),
                ) {
                    Some(o) => Some(order_holds(o, order)),
                    None => None,
                }
            },
        },
        SearchKey::MainType => match parse_unsigned(value, max_usize()) {
            Some(c) => Some(info.card_type.main_type@.len() == c),
            None => {
                let t = main_types_of_words(words(value));
                match set_compare(
                    covers(info.card_type.main_type@, t),
                    covers(t, info.card_type.main_type@),
                ) {
                    Some(o) => Some(order_holds(o, order)),
                    None => None,
                }
            },
        },
        SearchKey::SubType => match parse_unsigned(value, max_usize()) {
            Some(c) => Some(info.card_type.sub_type@.len() == c),
            None => {
                let t = sub_types_of_words(names, words(value));
                match set_compare(
                    covers(info.card_type.sub_type@, t),
                    covers(t, info.card_type.sub_type@),
                ) {
                    Some(o) => Some(order_holds(o, order)),
                    None => None,
                }
            },
        },
        SearchKey::Color => match parse_unsigned(value, max_usize()) {
            Some(c) => Some(info.color.spec_len() == c),
            None => match color_letters(value) {
                Some(col) => match info.color.compare(col) {
                    Some(o) => Some(order_holds(o, order)),
                    None => None,
                },
                None => None,
            },
        },
        SearchKey::Power => match (info.power, parse_unsigned(value, 255)) {
            (Some(p), Some(v)) => Some(order_holds(compare_nums(num(p), v), order)),
            _ => None,
        },
        SearchKey::Loyalty => match (info.loyalty, parse_unsigned(value, 255)) {
            (Some(p), Some(v)) => Some(order_holds(compare_nums(num(p), v), order)),
            _ => None,
        },
        SearchKey::Toughness => match (info.toughness, parse_unsigned(value, 255)) {
            (Some(p), Some(v)) => Some(order_holds(compare_nums(num(p), v), order)),
            _ => None,
        },
    }
}

/// Whether a card face passes one search term.
pub open spec fn pair_matches(
    info: CardInfo,
    names: Seq<Seq<char>>,
    p: (bool, SearchKey, Seq<char>, Order),
) -> bool {
    match term_result(info, names, p.1, p.2, p.3) {
        None => false,
        Some(b) => if p.0 {
            !b
        } else {
            b
        },
    }
}

/// The search text as it is read: ASCII lower case, without surrounding
/// whitespace.
pub open spec fn search_text(text: Seq<char>) -> Seq<char> {
    trim(lower_all(text))
}

/// Whether the search text can be read into terms.
pub open spec fn search_ok(text: Seq<char>) -> bool {
    pairs_of(search_text(text)) is Some
}

/// Whether a card face passes every term of the search text.
pub open spec fn face_matches(info: CardInfo, names: Seq<Seq<char>>, text: Seq<char>) -> bool {
    let ps = pairs_of(search_text(text))->0;
    forall|i: int| 0 <= i < ps.len() ==> pair_matches(info, names, #[trigger] ps[i])
}

/// Whether the terms `ps`, taken in turn up to the first one the face
/// fails, can all be evaluated on the face.
pub open spec fn terms_defined(
    info: CardInfo,
    names: Seq<Seq<char>>,
    ps: Seq<(bool, SearchKey, Seq<char>, Order)>,
) -> bool
    decreases ps.len(),
{
    if ps.len() == 0 {
        true
    } else {
        term_defined(info, ps[0].1, ps[0].2) && (pair_matches(info, names, ps[0]) ==> terms_defined(
            info,
            names,
            ps.drop_first(),
        ))
    }
}

/// Whether a search of the text can be run on a card face: every term it
/// reaches, up to the first one the face fails, can be evaluated.
pub open spec fn face_searchable(info: CardInfo, names: Seq<Seq<char>>, text: Seq<char>) -> bool {
    terms_defined(info, names, pairs_of(search_text(text))->0)
}

fn cost_fits(c: &crate::cost::Cost) -> (r: bool)
    ensures
        r == (c.spec_total() <= 255),
{
    let t: u16 = c.white as u16 + c.blue as u16 + c.black as u16 + c.red as u16 + c.green as u16
        + c.colorless as u16 + c.any as u16;
    t <= 255
}

fn type_count_fits(t: &Types) -> (r: bool)
    ensures
        r == (t.spec_len() <= usize::MAX),
{
    match t.super_type.0.len().checked_add(t.main_type.0.len()) {
        Some(a) => a.checked_add(t.sub_type.0.len()).is_some(),
        None => false,
    }
}

fn term_defined_exec(info: &CardInfo, key: SearchKey, value: &[char]) -> (r: bool)
    ensures
        r == term_defined(*info, key, value@),
{
    match key {
        SearchKey::Cmc => match parse_small(value) {
            Some(_) => cost_fits(&info.mana_cost),
            None => true,
        },
        SearchKey::Type => match parse_usize(value) {
            Some(_) => type_count_fits(&info.card_type),
            None => true,
        },
        _ => true,
    }
}

fn parse_usize(value: &[char]) -> (r: Option<usize>)
    ensures
        r matches Some(c) ==> parse_unsigned(value@, max_usize()) == Some(c as int),
        r is None ==> parse_unsigned(value@, max_usize()) is None,
{
    match parse_unsigned_exec(value, usize::MAX as u64) {
        Some(c) => Some(c as usize),
        None => None,
    }
}

fn parse_small(value: &[char]) -> (r: Option<u8>)
    ensures
        r matches Some(c) ==> parse_unsigned(value@, 255) == Some(num(c)),
        r is None ==> parse_unsigned(value@, 255) is None,
{
    match parse_unsigned_exec(value, 255) {
        Some(c) => Some(c as u8),
        None => None,
    }
}

impl CardInfo {
    /// Whether the face passes one search term.
    pub fn filter_pair(
        &self,
        catalog: &TypeCatalog,
        negate: bool,
        key: SearchKey,
        value: &[char],
        ordering: Order,
    ) -> (r: bool)
        requires
            term_defined(*self, key, value@),
        ensures
            r == pair_matches(*self, catalog.view(), (negate, key, value@, ordering)),
    {
        let res = match key {
            SearchKey::Name => {
                let n = to_ascii_lowercase(&chars_of(self.name.as_str()));
                contains_exec(&n, value)
            },
            SearchKey::Text => {
                let n = to_ascii_lowercase(&chars_of(self.text.as_str()));
                contains_exec(&n, value)
            },
            SearchKey::Cmc => {
                if let Some(v) = parse_small(value) {
                    ordering.holds(compare_u8(self.mana_cost.total(), v))
                } else {
                    return false;
                }
            },
            SearchKey::Type => {
                if let Some(count) = parse_usize(value) {
                    self.card_type.len() == count
                } else {
                    let types = Types::from_chars(value, catalog);
                    if let Some(order) = self.card_type.partial_cmp(&types) {
                        ordering.holds(order)
                    } else {
                        return false;
                    }
                }
            },
            SearchKey::SuperType => {
                if let Some(count) = parse_usize(value) {
                    self.card_type.super_type.0.len() == count
                } else {
                    let types = SuperTypes::from_chars(value);
                    if let Some(order) = self.card_type.super_type.partial_cmp(&types) {
                        ordering.holds(order)
                    } else {
                        return false;
                    }
                }
            },
            SearchKey::MainType => {
                if let Some(count) = parse_usize(value) {
                    self.card_type.main_type.0.len() == count
                } else {
                    let types = MainTypes::from_chars(value);
                    if let Some(order) = self.card_type.main_type.partial_cmp(&types) {
                        ordering.holds(order)
                    } else {
                        return false;
                    }
                }
            },
            SearchKey::SubType => {
                if let Some(count) = parse_usize(value) {
                    self.card_type.sub_type.0.len() == count
                } else {
                    let types = SubTypes::from_chars(value, catalog);
                    if let Some(order) = self.card_type.sub_type.partial_cmp(&types) {
                        ordering.holds(order)
                    } else {
                        return false;
                    }
                }
            },
            SearchKey::Color => {
                if let Some(count) = parse_usize(value) {
                    self.color.len() == count
                } else if let Ok(col) = ColorIdentity::from_chars(value) {
                    if let Some(order) = self.color.partial_cmp(&col) {
                        ordering.holds(order)
                    } else {
                        return false;
                    }
                } else {
                    return false;
                }
            },
            SearchKey::Power => {
                if let (Some(p), Some(v)) = (self.power, parse_small(value)) {
                    ordering.holds(compare_u8(p, v))
                } else {
                    return false;
                }
            },
            SearchKey::Loyalty => {
                if let (Some(p), Some(v)) = (self.loyalty, parse_small(value)) {
                    ordering.holds(compare_u8(p, v))
                } else {
                    return false;
                }
            },
            SearchKey::Toughness => {
                if let (Some(p), Some(v)) = (self.toughness, parse_small(value)) {
                    ordering.holds(compare_u8(p, v))
                } else {
                    return false;
                }
            },
        };
        if negate {
            !res
        } else {
            res
        }
    }

    /// Whether the face passes every term of the search text.
    pub fn filter(&self, catalog: &TypeCatalog, text: &str) -> (r: bool)
        requires
            search_ok(text@),
            face_searchable(*self, catalog.view(), text@),
        ensures
            r == face_matches(*self, catalog.view(), text@),
    {
        let lower = to_ascii_lowercase(&chars_of(text));
        let trimmed = trim_exec(&lower);
        let pairs = get_pairs(&trimmed).unwrap();
        let ghost ps = pairs@.map_values(|p: Pair| p@);
        proof {
            assert(ps.subrange(0, ps.len() as int) =~= ps);
        }
        for i in 0..pairs.len()
            invariant
                ps == pairs@.map_values(|p: Pair| p@),
                ps == pairs_of(search_text(text@))->0,
                terms_defined(*self, catalog.view(), ps.subrange(i as int, ps.len() as int)),
                forall|k: int| 0 <= k < i ==> pair_matches(*self, catalog.view(), #[trigger] ps[k]),
        {
            let ghost rest = ps.subrange(i as int, ps.len() as int);
            proof {
                assert(rest[0] == ps[i as int]);
                assert(rest.drop_first() =~= ps.subrange(i + 1, ps.len() as int));
            }
            let p = &pairs[i];
            if !self.filter_pair(catalog, p.negate, p.key, &p.value, p.order) {
                assert(!pair_matches(*self, catalog.view(), ps[i as int]));
                return false;
            }
        }
        true
    }

    /// Whether a search of the text can be run on the face: every term it
    /// reaches, up to the first one the face fails, can be evaluated.
    pub fn searchable(&self, catalog: &TypeCatalog, text: &str) -> (r: bool)
        requires
            search_ok(text@),
        ensures
            r == face_searchable(*self, catalog.view(), text@),
    {
        let lower = to_ascii_lowercase(&chars_of(text));
        let trimmed = trim_exec(&lower);
        let pairs = get_pairs(&trimmed).unwrap();
        let ghost ps = pairs@.map_values(|p: Pair| p@);
        proof {
            assert(ps.subrange(0, ps.len() as int) =~= ps);
        }
        for i in 0..pairs.len()
            invariant
                ps == pairs@.map_values(|p: Pair| p@),
                ps == pairs_of(search_text(text@))->0,
                terms_defined(*self, catalog.view(), ps) == terms_defined(
                    *self,
                    catalog.view(),
                    ps.subrange(i as int, ps.len() as int),
                ),
        {
            let ghost rest = ps.subrange(i as int, ps.len() as int);
            proof {
                assert(rest[0] == ps[i as int]);
                assert(rest.drop_first() =~= ps.subrange(i + 1, ps.len() as int));
            }
            let p = &pairs[i];
            if !term_defined_exec(self, p.key, &p.value) {
                return false;
            }
            if !self.filter_pair(catalog, p.negate, p.key, &p.value, p.order) {
                return true;
            }
        }
        proof {
            assert(ps.subrange(ps.len() as int, ps.len() as int) =~= Seq::<
                (bool, SearchKey, Seq<char>, Order),
            >::empty());
        }
        true
    }
}

impl SubCard {
    /// Whether either face of the card passes the search text.
    pub fn filter(&self, catalog: &TypeCatalog, text: &str) -> (r: bool)
        requires
            search_ok(text@),
            card_searchable(*self, catalog.view(), text@),
        ensures
            r == (face_matches(self.data.face, catalog.view(), text@) || (
            self.data.back matches Some(b) && face_matches(b, catalog.view(), text@))),
    {
        if self.data.face.filter(catalog, text) {
            true
        } else {
            match &self.data.back {
                Some(b) => b.filter(catalog, text),
                None => false,
            }
        }
    }
}

/// Whether the search text can be read into terms.
pub fn search_text_ok(text: &str) -> (r: bool)
    ensures
        r == search_ok(text@),
{
    let lower = to_ascii_lowercase(&chars_of(text));
    let trimmed = trim_exec(&lower);
    get_pairs(&trimmed).is_some()
}


/// Whether a card passes the search text on either face.
pub open spec fn card_hit(c: SubCard, names: Seq<Seq<char>>, text: Seq<char>) -> bool {
    face_matches(c.data.face, names, text) || (c.data.back matches Some(b) && face_matches(
        b,
        names,
        text,
    ))
}

/// Whether a search of the text can be run on a card: on its face, and on
/// its back when the face fails.
pub open spec fn card_searchable(c: SubCard, names: Seq<Seq<char>>, text: Seq<char>) -> bool {
    &&& face_searchable(c.data.face, names, text)
    &&& !face_matches(c.data.face, names, text) ==> (c.data.back matches Some(b) ==> face_searchable(
        b,
        names,
        text,
    ))
}

/// The positions below `k` of the cards that pass the search, ascending.
pub open spec fn hits_below(cards: Seq<SubCard>, names: Seq<Seq<char>>, text: Seq<char>, k: int) -> Seq<
    usize,
>
    decreases k,
{
    if k <= 0 {
        Seq::empty()
    } else {
        let rest = hits_below(cards, names, text, k - 1);
        if card_hit(cards[k - 1], names, text) {
            rest.push((k - 1) as usize)
        } else {
            rest
        }
    }
}

/// The positions of a pile's cards (in iteration order) that pass the
/// search text, as the search lists them: ascending for a face-down pile,
/// descending otherwise.
pub fn search_hits(pile: &Pile, catalog: &TypeCatalog, text: &str, reversed: bool) -> (r: Vec<
    usize,
>)
    requires
        !(*pile is Empty),
        pile.cards().len() <= usize::MAX,
        search_ok(text@),
        forall|j: int|
            0 <= j < pile.cards().len() ==> card_searchable(
                #[trigger] pile.cards()[j],
                catalog.view(),
                text@,
            ),
    ensures
        r@ == (if reversed {
            hits_below(pile.cards(), catalog.view(), text@, pile.cards().len() as int)
        } else {
            hits_below(pile.cards(), catalog.view(), text@, pile.cards().len() as int).reverse()
        }),
{
    let ghost cs = pile.cards();
    let mut up: Vec<usize> = Vec::new();
    let mut j: usize = 0;
    loop
        invariant
            cs == pile.cards(),
            cs.len() <= usize::MAX,
            !(*pile is Empty),
            search_ok(text@),
            forall|j: int|
                0 <= j < cs.len() ==> card_searchable(#[trigger] cs[j], catalog.view(), text@),
            j <= cs.len(),
            up@ == hits_below(cs, catalog.view(), text@, j as int),
        ensures
            up@ == hits_below(cs, catalog.view(), text@, cs.len() as int),
        decreases cs.len() - j,
    {
        match pile.get(j) {
            None => {
                assert(j == cs.len());
                break;
            },
            Some(c) => {
                assert(c == cs[j as int]);
                if c.filter(catalog, text) {
                    up.push(j);
                }
                j = j + 1;
            },
        }
    }
    if reversed {
        up
    } else {
        let mut down: Vec<usize> = Vec::new();
        let n = up.len();
        let mut k: usize = n;
        while k > 0
            invariant
                n == up@.len(),
                k <= n,
                down@ == up@.subrange(k as int, n as int).reverse(),
            decreases k,
        {
            k = k - 1;
            down.push(up[k]);
            assert(down@ =~= up@.subrange(k as int, n as int).reverse());
        }
        assert(up@.subrange(0, n as int) =~= up@);
        down
    }
}

/// Whether `a` and `b` stand in the relation a search order names: `>`,
/// `<`, `=`, `>=` or `<=`.
pub open spec fn numbers_in_order(order: Order, a: int, b: int) -> bool {
    match order {
        Order::Greater => a > b,
        Order::Less => a < b,
        Order::Equal => a == b,
        Order::GreaterEqual => a >= b,
        Order::LessEqual => a <= b,
    }
}

/// A power, toughness or loyalty term with a number `v` holds of a face
/// exactly when the face has that statistic and it stands to `v` as the
/// term's order asks ("l>3" holds of a loyalty above 3); negated, exactly
/// when the face has the statistic and it does not. A face without the
/// statistic fails the term either way.
pub proof fn law_stat_terms(
    info: CardInfo,
    names: Seq<Seq<char>>,
    key: SearchKey,
    value: Seq<char>,
    order: Order,
    v: int,
)
    requires
        key == SearchKey::Power || key == SearchKey::Toughness || key == SearchKey::Loyalty,
        parse_unsigned(value, 255) == Some(v),
    ensures
        ({
            let stat = if key == SearchKey::Power {
                info.power
            } else if key == SearchKey::Toughness {
                info.toughness
            } else {
                info.loyalty
            };
            &&& stat is None ==> !pair_matches(info, names, (false, key, value, order))
                && !pair_matches(info, names, (true, key, value, order))
            &&& stat matches Some(p) ==> pair_matches(info, names, (false, key, value, order))
                == numbers_in_order(order, p as int, v) && pair_matches(
                info,
                names,
                (true, key, value, order),
            ) == !numbers_in_order(order, p as int, v)
        }),
{
}

/// A mana value term with a number `v` holds of a face exactly when its
/// mana value stands to `v` as the term's order asks; negated, exactly when
/// it does not.
pub proof fn law_cmc_terms(info: CardInfo, names: Seq<Seq<char>>, value: Seq<char>, order: Order, v: int)
    requires
        parse_unsigned(value, 255) == Some(v),
    ensures
        pair_matches(info, names, (false, SearchKey::Cmc, value, order)) == numbers_in_order(
            order,
            info.mana_cost.spec_total(),
            v,
        ),
        pair_matches(info, names, (true, SearchKey::Cmc, value, order)) == !numbers_in_order(
            order,
            info.mana_cost.spec_total(),
            v,
        ),
{
}

} // verus!
