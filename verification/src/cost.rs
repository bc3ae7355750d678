use vstd::prelude::*;

use crate::text::{
    all_digits, chars_of, is_digit, parse_unsigned, parse_unsigned_exec, slice, split, split_exec,
};
use std::cmp::Ordering;

verus! {

/// The mana symbols of a card's cost, counted by kind.
#[derive(Clone, Copy, PartialEq, Eq, Structural, Debug, Default)]
pub struct Cost {
    pub white: u8,
    pub blue: u8,
    pub black: u8,
    pub red: u8,
    pub green: u8,
    pub colorless: u8,
    pub any: u8,
    pub pay: u8,
    pub var: u8,
}

/// The colors a card has.
#[derive(Clone, Copy, PartialEq, Eq, Structural, Debug, Default)]
pub struct ColorIdentity {
    pub white: bool,
    pub blue: bool,
    pub black: bool,
    pub red: bool,
    pub green: bool,
}

/// The symbols of a cost written as `{W}{2}{U/P}`: the text between the
/// outer braces, cut at each `}{`, each piece cut at each `/`.
pub open spec fn cost_tokens(s: Seq<char>) -> Seq<Seq<char>> {
    flat_split(split(s.subrange(1, s.len() - 1), seq!['}', '{']), seq!['/'])
}

/// Each part cut at each occurrence of `pat`, all pieces in order.
pub open spec fn flat_split(parts: Seq<Seq<char>>, pat: Seq<char>) -> Seq<Seq<char>>
    decreases parts.len(),
{
    if parts.len() == 0 {
        seq![]
    } else {
        flat_split(parts.drop_last(), pat) + split(parts.last(), pat)
    }
}

/// How many of the symbols are exactly `sym`.
pub open spec fn count_of(toks: Seq<Seq<char>>, sym: char) -> nat
    decreases toks.len(),
{
    if toks.len() == 0 {
        0
    } else {
        count_of(toks.drop_last(), sym) + if toks.last() == seq![sym] {
            1nat
        } else {
            0nat
        }
    }
}

/// Whether a symbol is one of the lettered ones a cost counts.
pub open spec fn is_letter_symbol(t: Seq<char>) -> bool {
    t == seq!['W'] || t == seq!['U'] || t == seq!['B'] || t == seq!['R'] || t == seq!['G']
        || t == seq!['C'] || t == seq!['P'] || t == seq!['X']
}

/// The generic mana of the symbols: the sum of the numbers among them.
pub open spec fn numeric_sum(toks: Seq<Seq<char>>) -> nat
    decreases toks.len(),
{
    if toks.len() == 0 {
        0
    } else {
        numeric_sum(toks.drop_last()) + if is_letter_symbol(toks.last()) {
            0nat
        } else {
            match parse_unsigned(toks.last(), 255) {
                Some(v) => v as nat,
                None => 0nat,
            }
        }
    }
}

pub open spec fn is_ascii_char(c: char) -> bool {
    (c as u32) < 128
}

/// Whether reading `s` as a cost succeeds: empty, or braces around symbols
/// that are letters or numbers, with no kind counted past 255.
pub open spec fn cost_text_ok(s: Seq<char>) -> bool {
    s.len() == 0 || {
        let toks = cost_tokens(s);
        &&& s.len() >= 2
        &&& is_ascii_char(s[0]) && is_ascii_char(s.last())
        &&& forall|i: int|
            0 <= i < toks.len() ==> is_letter_symbol(#[trigger] toks[i]) || parse_unsigned(
                toks[i],
                255,
            ) is Some
        &&& count_of(toks, 'W') <= 255 && count_of(toks, 'U') <= 255 && count_of(toks, 'B') <= 255
        &&& count_of(toks, 'R') <= 255 && count_of(toks, 'G') <= 255 && count_of(toks, 'C') <= 255
        &&& count_of(toks, 'P') <= 255 && count_of(toks, 'X') <= 255
        &&& numeric_sum(toks) <= 255
    }
}

/// The cost that the text `s` writes.
pub open spec fn cost_of(s: Seq<char>) -> Cost {
    if s.len() == 0 {
        Cost { white: 0, blue: 0, black: 0, red: 0, green: 0, colorless: 0, any: 0, pay: 0, var: 0 }
    } else {
        let toks = cost_tokens(s);
        Cost {
            white: count_of(toks, 'W') as u8,
            blue: count_of(toks, 'U') as u8,
            black: count_of(toks, 'B') as u8,
            red: count_of(toks, 'R') as u8,
            green: count_of(toks, 'G') as u8,
            colorless: count_of(toks, 'C') as u8,
            any: numeric_sum(toks) as u8,
            pay: count_of(toks, 'P') as u8,
            var: count_of(toks, 'X') as u8,
        }
    }
}

proof fn lemma_count_prefix(toks: Seq<Seq<char>>, sym: char, k: int)
    requires
        0 <= k <= toks.len(),
    ensures
        count_of(toks.subrange(0, k), sym) <= count_of(toks, sym),
    decreases toks.len(),
{
    if k == toks.len() {
        assert(toks.subrange(0, k) =~= toks);
    } else {
        lemma_count_prefix(toks.drop_last(), sym, k);
        assert(toks.drop_last().subrange(0, k) =~= toks.subrange(0, k));
    }
}

proof fn lemma_sum_prefix(toks: Seq<Seq<char>>, k: int)
    requires
        0 <= k <= toks.len(),
    ensures
        numeric_sum(toks.subrange(0, k)) <= numeric_sum(toks),
    decreases toks.len(),
{
    if k == toks.len() {
        assert(toks.subrange(0, k) =~= toks);
    } else {
        lemma_sum_prefix(toks.drop_last(), k);
        assert(toks.drop_last().subrange(0, k) =~= toks.subrange(0, k));
    }
}

/// The symbols of the cost text `s`, which has at least two characters.
fn cost_tokens_exec(s: &[char]) -> (r: Vec<Vec<char>>)
    requires
        s@.len() >= 2,
    ensures
        r@.map_values(|v: Vec<char>| v@) == cost_tokens(s@),
{
    let inner = slice(s, 1, s.len() - 1);
    let braces: Vec<char> = vec!['}', '{'];
    let slash: Vec<char> = vec!['/'];
    assert(braces@ =~= seq!['}', '{']);
    assert(slash@ =~= seq!['/']);
    let parts = split_exec(&inner, &braces);
    let ghost ps = parts@.map_values(|v: Vec<char>| v@);
    let mut r: Vec<Vec<char>> = Vec::new();
    for i in 0..parts.len()
        invariant
            ps == parts@.map_values(|v: Vec<char>| v@),
            slash@ == seq!['/'],
            r@.map_values(|v: Vec<char>| v@) == flat_split(ps.subrange(0, i as int), seq!['/']),
    {
        let mut pieces = split_exec(&parts[i], &slash);
        let ghost before = r@;
        r.append(&mut pieces);
        assert(ps.subrange(0, i + 1 as int).drop_last() =~= ps.subrange(0, i as int));
        assert(r@.map_values(|v: Vec<char>| v@) =~= before.map_values(|v: Vec<char>| v@) + split(
            ps[i as int],
            seq!['/'],
        ));
    }
    assert(ps.subrange(0, parts@.len() as int) =~= ps);
    r
}

proof fn lemma_single_eq(a: char, b: char)
    ensures
        (seq![a] == seq![b]) == (a == b),
{
    if a != b {
        assert(seq![a][0] != seq![b][0]);
    }
}

proof fn lemma_single_eq_all(t: Seq<char>)
    requires
        t == seq!['W'] || t == seq!['U'] || t == seq!['B'] || t == seq!['R'] || t == seq!['G'],
    ensures
        t.len() == 1,
{
}

fn is_sym(t: &[char], c: char) -> (r: bool)
    ensures
        r == (t@ == seq![c]),
{
    if t.len() == 1 && t[0] == c {
        assert(t@ =~= seq![c]);
        true
    } else {
        false
    }
}

impl Cost {
    /// The generic and colored mana the cost asks for, which Cmc compares.
    pub open spec fn spec_total(self) -> int {
        self.white + self.blue + self.black + self.red + self.green + self.colorless + self.any
    }

    /// Reads a cost written as `{W}{2}{U/P}`; an empty text is no cost.
    pub fn from(value: &str) -> (r: Cost)
        requires
            cost_text_ok(value@),
        ensures
            r == cost_of(value@),
    {
        let s = chars_of(value);
        let mut cost = Cost {
            white: 0,
            blue: 0,
            black: 0,
            red: 0,
            green: 0,
            colorless: 0,
            any: 0,
            pay: 0,
            var: 0,
        };
        if s.len() == 0 {
            return cost;
        }
        let toks = cost_tokens_exec(&s);
        let ghost ts = toks@.map_values(|v: Vec<char>| v@);
        for i in 0..toks.len()
            invariant
                ts == toks@.map_values(|v: Vec<char>| v@),
                ts == cost_tokens(s@),
                cost_text_ok(s@),
                s@.len() >= 2,
                cost.white == count_of(ts.subrange(0, i as int), 'W'),
                cost.blue == count_of(ts.subrange(0, i as int), 'U'),
                cost.black == count_of(ts.subrange(0, i as int), 'B'),
                cost.red == count_of(ts.subrange(0, i as int), 'R'),
                cost.green == count_of(ts.subrange(0, i as int), 'G'),
                cost.colorless == count_of(ts.subrange(0, i as int), 'C'),
                cost.pay == count_of(ts.subrange(0, i as int), 'P'),
                cost.var == count_of(ts.subrange(0, i as int), 'X'),
                cost.any == numeric_sum(ts.subrange(0, i as int)),
        {
            let ghost pre = ts.subrange(0, i as int);
            let ghost next = ts.subrange(0, i + 1 as int);
            proof {
                assert(next.drop_last() =~= pre);
                assert(next.last() == ts[i as int]);
                lemma_count_prefix(ts, 'W', i + 1);
                lemma_count_prefix(ts, 'U', i + 1);
                lemma_count_prefix(ts, 'B', i + 1);
                lemma_count_prefix(ts, 'R', i + 1);
                lemma_count_prefix(ts, 'G', i + 1);
                lemma_count_prefix(ts, 'C', i + 1);
                lemma_count_prefix(ts, 'P', i + 1);
                lemma_count_prefix(ts, 'X', i + 1);
                lemma_sum_prefix(ts, i + 1);
            }
            let t = &toks[i];
            if is_sym(t, 'W') {
                cost.white = cost.white + 1;
            } else if is_sym(t, 'U') {
                cost.blue = cost.blue + 1;
            } else if is_sym(t, 'B') {
                cost.black = cost.black + 1;
            } else if is_sym(t, 'R') {
                cost.red = cost.red + 1;
            } else if is_sym(t, 'G') {
                cost.green = cost.green + 1;
            } else if is_sym(t, 'C') {
                cost.colorless = cost.colorless + 1;
            } else if is_sym(t, 'P') {
                cost.pay = cost.pay + 1;
            } else if is_sym(t, 'X') {
                cost.var = cost.var + 1;
            } else {
                assert(parse_unsigned(ts[i as int], 255) is Some);
                let v = parse_unsigned_exec(t, 255).unwrap();
                cost.any = cost.any + (v as u8);
            }
        }
        assert(ts.subrange(0, toks@.len() as int) =~= ts);
        cost
    }

    /// Whether `value` reads as a cost without failing (see
    /// `cost_text_ok`).
    pub fn readable(value: &str) -> (r: bool)
        ensures
            r == cost_text_ok(value@),
    {
        let s = chars_of(value);
        if s.len() == 0 {
            return true;
        }
        if s.len() < 2 || !((s[0] as u32) < 128) || !((s[s.len() - 1] as u32) < 128) {
            return false;
        }
        let toks = cost_tokens_exec(&s);
        let ghost ts = toks@.map_values(|v: Vec<char>| v@);
        let mut counts: [usize; 8] = [0, 0, 0, 0, 0, 0, 0, 0];
        let mut sum: u64 = 0;
        let mut over = false;
        let mut i: usize = 0;
        while i < toks.len()
            invariant
                ts == toks@.map_values(|v: Vec<char>| v@),
                ts == cost_tokens(s@),
                s@ == value@,
                s@.len() >= 2,
                is_ascii_char(s@[0]) && is_ascii_char(s@.last()),
                i <= ts.len(),
                forall|j: int| 0 <= j < i ==> is_letter_symbol(#[trigger] ts[j]) || parse_unsigned(
                    ts[j],
                    255,
                ) is Some,
                counts[0] == count_of(ts.subrange(0, i as int), 'W'),
                counts[1] == count_of(ts.subrange(0, i as int), 'U'),
                counts[2] == count_of(ts.subrange(0, i as int), 'B'),
                counts[3] == count_of(ts.subrange(0, i as int), 'R'),
                counts[4] == count_of(ts.subrange(0, i as int), 'G'),
                counts[5] == count_of(ts.subrange(0, i as int), 'C'),
                counts[6] == count_of(ts.subrange(0, i as int), 'P'),
                counts[7] == count_of(ts.subrange(0, i as int), 'X'),
                forall|k: int| 0 <= k < 8 ==> counts[k] <= i,
                !over ==> sum == numeric_sum(ts.subrange(0, i as int)) && sum <= 255,
                over ==> numeric_sum(ts.subrange(0, i as int)) > 255,
            decreases ts.len() - i,
        {
            let ghost pre = ts.subrange(0, i as int);
            let ghost next = ts.subrange(0, i + 1 as int);
            proof {
                assert(next.drop_last() =~= pre);
                assert(next.last() == ts[i as int]);
            }
            let t = &toks[i];
            if is_sym(t, 'W') {
                counts[0] = counts[0] + 1;
            } else if is_sym(t, 'U') {
                counts[1] = counts[1] + 1;
            } else if is_sym(t, 'B') {
                counts[2] = counts[2] + 1;
            } else if is_sym(t, 'R') {
                counts[3] = counts[3] + 1;
            } else if is_sym(t, 'G') {
                counts[4] = counts[4] + 1;
            } else if is_sym(t, 'C') {
                counts[5] = counts[5] + 1;
            } else if is_sym(t, 'P') {
                counts[6] = counts[6] + 1;
            } else if is_sym(t, 'X') {
                counts[7] = counts[7] + 1;
            } else {
                match parse_unsigned_exec(t, 255) {
                    None => {
                        assert(!cost_text_ok(s@)) by {
                            assert(ts[i as int] == t@);
                            assert(!(is_letter_symbol(ts[i as int]) || parse_unsigned(ts[i as int], 255) is Some));
                            if cost_text_ok(s@) {
                                let toks2 = cost_tokens(s@);
                                assert(toks2[i as int] == ts[i as int]);
                                assert(is_letter_symbol(toks2[i as int]) || parse_unsigned(toks2[i as int], 255) is Some);
                            }
                        }
                        return false;
                    },
                    Some(v) => {
                        if !over {
                            if sum + v > 255 {
                                over = true;
                            } else {
                                sum = sum + v;
                            }
                        }
                    },
                }
            }
            i = i + 1;
        }
        proof {
            assert(ts.subrange(0, ts.len() as int) =~= ts);
        }
        counts[0] <= 255 && counts[1] <= 255 && counts[2] <= 255 && counts[3] <= 255 && counts[4]
            <= 255 && counts[5] <= 255 && counts[6] <= 255 && counts[7] <= 255 && !over
    }

    /// The generic and colored mana the cost asks for.
    pub fn total(&self) -> (r: u8)
        requires
            self.spec_total() <= 255,
        ensures
            r == self.spec_total(),
    {
        self.white + self.blue + self.black + self.red + self.green + self.colorless + self.any
    }
}

/// The colors the letters `s` name (`w`, `u`, `b`, `r`, `g`), if every
/// character is one of them.
pub open spec fn color_letters(s: Seq<char>) -> Option<ColorIdentity> {
    if forall|i: int|
        0 <= i < s.len() ==> (#[trigger] s[i] == 'w' || s[i] == 'u' || s[i] == 'b' || s[i] == 'r'
            || s[i] == 'g') {
        Some(
            ColorIdentity {
                white: s.contains('w'),
                blue: s.contains('u'),
                black: s.contains('b'),
                red: s.contains('r'),
                green: s.contains('g'),
            },
        )
    } else {
        None
    }
}

/// Whether every color of `b` is also a color of `a`.
pub open spec fn color_covers(a: ColorIdentity, b: ColorIdentity) -> bool {
    (b.white ==> a.white) && (b.blue ==> a.blue) && (b.black ==> a.black) && (b.red ==> a.red) && (
    b.green ==> a.green)
}

impl ColorIdentity {
    /// How many colors the identity has.
    pub open spec fn spec_len(self) -> nat {
        (if self.white {
            1nat
        } else {
            0nat
        }) + (if self.blue {
            1nat
        } else {
            0nat
        }) + (if self.black {
            1nat
        } else {
            0nat
        }) + (if self.red {
            1nat
        } else {
            0nat
        }) + (if self.green {
            1nat
        } else {
            0nat
        })
    }

    /// How colors compare: equal, more colors than (a superset of), fewer
    /// colors than (a subset of), or neither.
    pub open spec fn compare(self, other: ColorIdentity) -> Option<Ordering> {
        if self == other {
            Some(Ordering::Equal)
        } else if color_covers(self, other) {
            Some(Ordering::Greater)
        } else if color_covers(other, self) {
            Some(Ordering::Less)
        } else {
            None
        }
    }

    /// Reads colors written as lower-case letters; any other character is
    /// refused.
    pub fn from_str(s: &str) -> (r: Result<ColorIdentity, ()>)
        ensures
            r matches Ok(c) ==> color_letters(s@) == Some(c),
            r is Err ==> color_letters(s@) is None,
    {
        Self::from_chars(&chars_of(s))
    }

    /// Reads colors written as lower-case letters, as `from_str` does.
    pub fn from_chars(cs: &[char]) -> (r: Result<ColorIdentity, ()>)
        ensures
            r matches Ok(c) ==> color_letters(cs@) == Some(c),
            r is Err ==> color_letters(cs@) is None,
    {
        let mut cost = ColorIdentity {
            white: false,
            blue: false,
            black: false,
            red: false,
            green: false,
        };
        for i in 0..cs.len()
            invariant
                forall|k: int|
                    0 <= k < i ==> (#[trigger] cs@[k] == 'w' || cs@[k] == 'u' || cs@[k] == 'b'
                        || cs@[k] == 'r' || cs@[k] == 'g'),
                cost.white == cs@.subrange(0, i as int).contains('w'),
                cost.blue == cs@.subrange(0, i as int).contains('u'),
                cost.black == cs@.subrange(0, i as int).contains('b'),
                cost.red == cs@.subrange(0, i as int).contains('r'),
                cost.green == cs@.subrange(0, i as int).contains('g'),
        {
            let c = cs[i];
            let ghost pre = cs@.subrange(0, i as int);
            let ghost next = cs@.subrange(0, i + 1 as int);
            assert(next =~= pre.push(c));
            assert(forall|x: char| next.contains(x) <==> (pre.contains(x) || x == c)) by {
                assert forall|x: char| next.contains(x) implies (pre.contains(x) || x == c) by {
                    let k = choose|k: int| 0 <= k < next.len() && next[k] == x;
                    if k < i {
                        assert(pre[k] == x);
                    }
                }
                assert forall|x: char| (pre.contains(x) || x == c) implies next.contains(x) by {
                    if x == c {
                        assert(next[i as int] == x);
                    } else {
                        let k = choose|k: int| 0 <= k < pre.len() && pre[k] == x;
                        assert(next[k] == x);
                    }
                }
            }
            if c == 'w' {
                cost.white = true;
            } else if c == 'u' {
                cost.blue = true;
            } else if c == 'b' {
                cost.black = true;
            } else if c == 'r' {
                cost.red = true;
            } else if c == 'g' {
                cost.green = true;
            } else {
                assert(!(cs@[i as int] == 'w' || cs@[i as int] == 'u' || cs@[i as int] == 'b'
                    || cs@[i as int] == 'r' || cs@[i as int] == 'g'));
                return Err(());
            }
        }
        assert(cs@.subrange(0, cs@.len() as int) =~= cs@);
        Ok(cost)
    }

    /// Reads colors given one symbol each (`W`, `U`, `B`, `R`, `G`).
    pub fn parse(value: &Vec<String>) -> (r: ColorIdentity)
        requires
            forall|i: int|
                0 <= i < value@.len() ==> (#[trigger] value@[i]@ == seq!['W'] || value@[i]@
                    == seq!['U'] || value@[i]@ == seq!['B'] || value@[i]@ == seq!['R']
                    || value@[i]@ == seq!['G']),
        ensures
            r.white == exists|i: int| 0 <= i < value@.len() && #[trigger] value@[i]@ == seq!['W'],
            r.blue == exists|i: int| 0 <= i < value@.len() && #[trigger] value@[i]@ == seq!['U'],
            r.black == exists|i: int| 0 <= i < value@.len() && #[trigger] value@[i]@ == seq!['B'],
            r.red == exists|i: int| 0 <= i < value@.len() && #[trigger] value@[i]@ == seq!['R'],
            r.green == exists|i: int| 0 <= i < value@.len() && #[trigger] value@[i]@ == seq!['G'],
    {
        let mut cost = ColorIdentity {
            white: false,
            blue: false,
            black: false,
            red: false,
            green: false,
        };
        for i in 0..value.len()
            invariant
                forall|i: int|
                    0 <= i < value@.len() ==> (#[trigger] value@[i]@ == seq!['W'] || value@[i]@
                        == seq!['U'] || value@[i]@ == seq!['B'] || value@[i]@ == seq!['R']
                        || value@[i]@ == seq!['G']),
                cost.white == exists|k: int| 0 <= k < i && #[trigger] value@[k]@ == seq!['W'],
                cost.blue == exists|k: int| 0 <= k < i && #[trigger] value@[k]@ == seq!['U'],
                cost.black == exists|k: int| 0 <= k < i && #[trigger] value@[k]@ == seq!['B'],
                cost.red == exists|k: int| 0 <= k < i && #[trigger] value@[k]@ == seq!['R'],
                cost.green == exists|k: int| 0 <= k < i && #[trigger] value@[k]@ == seq!['G'],
        {
            let c = chars_of(value[i].as_str());
            proof {
                lemma_single_eq_all(value@[i as int]@);
            }
            let ch = c[0];
            assert(value@[i as int]@ =~= seq![ch]);
            proof {
                lemma_single_eq(ch, 'W');
                lemma_single_eq(ch, 'U');
                lemma_single_eq(ch, 'B');
                lemma_single_eq(ch, 'R');
                lemma_single_eq(ch, 'G');
            }
            if ch == 'W' {
                cost.white = true;
            } else if ch == 'U' {
                cost.blue = true;
            } else if ch == 'B' {
                cost.black = true;
            } else if ch == 'R' {
                cost.red = true;
            } else {
                cost.green = true;
            }
        }
        cost
    }

    /// How many colors the identity has.
    pub fn len(&self) -> (r: usize)
        ensures
            r == self.spec_len(),
    {
        let mut n: usize = 0;
        if self.white {
            n = n + 1;
        }
        if self.blue {
            n = n + 1;
        }
        if self.black {
            n = n + 1;
        }
        if self.red {
            n = n + 1;
        }
        if self.green {
            n = n + 1;
        }
        n
    }

    pub fn is_empty(&self) -> (r: bool)
        ensures
            r == (self.spec_len() == 0),
    {
        !self.white && !self.blue && !self.black && !self.red && !self.green
    }

    /// Compares two identities as sets of colors.
    pub fn partial_cmp(&self, other: &ColorIdentity) -> (r: Option<Ordering>)
        ensures
            r == self.compare(*other),
    {
        let covers = |a: &ColorIdentity, b: &ColorIdentity| -> (r: bool)
            ensures
                r == color_covers(*a, *b),
            {
                (!b.white || a.white) && (!b.blue || a.blue) && (!b.black || a.black) && (!b.red
                    || a.red) && (!b.green || a.green)
            };
        if self.white == other.white && self.blue == other.blue && self.black == other.black
            && self.red == other.red && self.green == other.green {
            Some(Ordering::Equal)
        } else if covers(self, other) {
            Some(Ordering::Greater)
        } else if covers(other, self) {
            Some(Ordering::Less)
        } else {
            None
        }
    }
}

} // verus!
