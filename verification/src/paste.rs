use vstd::prelude::*;

use crate::text::{
    chars_of, is_digit, lines, lines_exec, parse_unsigned, parse_unsigned_exec, rsplit_once,
    rsplit_once_exec, slice, split, split_exec, starts_with, starts_with_exec, string_of, trim,
    trim_exec,
};

verus! {

/// One line of an exported deck list: how many copies of the printing
/// with collector number `cn` in the set `set`.
pub struct Exact {
    pub count: usize,
    pub cn: String,
    pub set: String,
}

/// What a pasted text asks for.
pub enum Paste {
    /// A Moxfield deck, by its identifier.
    Moxfield(String),
    /// A Scryfall card, by its identifier.
    ScryfallId(String),
    /// A Scryfall printing, by set and collector number.
    ScryfallPrinting { set: String, cn: String },
    /// A deck list, one printing per line.
    DeckList(Vec<Exact>),
    /// Nothing that can be fetched.
    Nothing,
}

/// How many bytes the UTF-8 encoding of `c` takes, as `char::len_utf8`
/// counts them.
pub open spec fn char_utf8_len(c: char) -> nat {
    if (c as u32) < 0x80 {
        1
    } else if (c as u32) < 0x800 {
        2
    } else if (c as u32) < 0x10000 {
        3
    } else {
        4
    }
}

/// How many bytes the UTF-8 encoding of `s` takes.
pub open spec fn utf8_len(s: Seq<char>) -> nat
    decreases s.len(),
{
    if s.len() == 0 {
        0
    } else {
        utf8_len(s.drop_last()) + char_utf8_len(s.last())
    }
}

/// `s` without the slashes that end it.
pub open spec fn trim_slashes(s: Seq<char>) -> Seq<char>
    decreases s.len(),
{
    if s.len() > 0 && s.last() == '/' {
        trim_slashes(s.drop_last())
    } else {
        s
    }
}

/// How many slashes `s` holds.
pub open spec fn slash_count(s: Seq<char>) -> nat
    decreases s.len(),
{
    if s.len() == 0 {
        0
    } else {
        slash_count(s.drop_last()) + (if s.last() == '/' {
            1nat
        } else {
            0nat
        })
    }
}

/// The pasted text as it is read: trimmed, without ending slashes.
pub open spec fn cleaned(paste: Seq<char>) -> Seq<char> {
    trim_slashes(trim(paste))
}

/// Whether a cleaned text names a Moxfield deck: a deck address, or a
/// 22-byte identifier.
pub open spec fn is_moxfield(p: Seq<char>) -> bool {
    starts_with(p, "https://moxfield.com/decks/"@) || starts_with(
        p,
        "https://www.moxfield.com/decks/"@,
    ) || utf8_len(p) == 22
}

/// Whether a cleaned text is a Scryfall card address.
pub open spec fn is_scryfall(p: Seq<char>) -> bool {
    starts_with(p, "https://scryfall.com/card/"@)
}

/// A deck list line read as count, collector number and bracketed set:
/// `None` when the line does not start with a digit, has fewer than three
/// words, or its first word is no count.
pub open spec fn line_entry(l: Seq<char>) -> Option<(int, Seq<char>, Seq<char>)> {
    let parts = split(l, seq![' ']);
    if l.len() == 0 || !is_digit(l[0]) || parts.len() < 3 {
        None
    } else {
        match parse_unsigned(parts[0], usize::MAX as int) {
            None => None,
            Some(c) => Some((c, parts.last(), parts[parts.len() - 2])),
        }
    }
}

/// Whether the brackets around a set code can be cut off: at least two
/// characters, the first and last of them single bytes.
pub open spec fn set_cuttable(set: Seq<char>) -> bool {
    set.len() >= 2 && (set[0] as u32) < 0x80 && (set.last() as u32) < 0x80
}

/// Whether every line before `i` reads as an entry.
pub open spec fn lines_read_upto(ls: Seq<Seq<char>>, i: int) -> bool {
    forall|j: int| 0 <= j < i ==> #[trigger] line_entry(ls[j]) is Some
}

/// Whether reading the deck list `ls` line by line reaches no line whose
/// set code cannot be cut out of its brackets.
pub open spec fn deck_list_safe(ls: Seq<Seq<char>>) -> bool {
    forall|i: int|
        0 <= i < ls.len() && lines_read_upto(ls, i) && #[trigger] line_entry(ls[i]) is Some
            ==> set_cuttable(line_entry(ls[i])->Some_0.2)
}

/// Whether a paste can be read without failing: a Moxfield paste holds a
/// slash, and a deck list's set codes can be cut out of their brackets.
pub open spec fn paste_readable(paste: Seq<char>) -> bool {
    let p = cleaned(paste);
    &&& is_moxfield(p) ==> rsplit_once(p, seq!['/']) is Some
    &&& !is_moxfield(p) && !is_scryfall(p) ==> deck_list_safe(lines(p))
}

/// The `k`-th piece of `s` from the right, cut at slashes, with at most
/// four pieces as `str::rsplitn(4, '/')` cuts it.
pub open spec fn rsplit4(s: Seq<char>) -> Seq<Seq<char>> {
    let a = rsplit_once(s, seq!['/']);
    if a is None {
        seq![s]
    } else {
        let b = rsplit_once(a->Some_0.0, seq!['/']);
        if b is None {
            seq![a->Some_0.1, a->Some_0.0]
        } else {
            let c = rsplit_once(b->Some_0.0, seq!['/']);
            if c is None {
                seq![a->Some_0.1, b->Some_0.1, b->Some_0.0]
            } else {
                seq![a->Some_0.1, b->Some_0.1, c->Some_0.1, c->Some_0.0]
            }
        }
    }
}

/// The view of a paste request.
pub open spec fn paste_view(r: Paste) -> PasteView {
    match r {
        Paste::Moxfield(s) => PasteView::Moxfield(s@),
        Paste::ScryfallId(s) => PasteView::ScryfallId(s@),
        Paste::ScryfallPrinting { set, cn } => PasteView::ScryfallPrinting(set@, cn@),
        Paste::DeckList(v) => PasteView::DeckList(
            v@.map_values(|e: Exact| (e.count as int, e.cn@, e.set@)),
        ),
        Paste::Nothing => PasteView::Nothing,
    }
}

/// A paste request with its strings as characters.
pub enum PasteView {
    Moxfield(Seq<char>),
    ScryfallId(Seq<char>),
    ScryfallPrinting(Seq<char>, Seq<char>),
    DeckList(Seq<(int, Seq<char>, Seq<char>)>),
    Nothing,
}

/// The entries of a deck list whose lines all read, the set codes cut out
/// of their brackets.
pub open spec fn deck_entries(ls: Seq<Seq<char>>) -> Seq<(int, Seq<char>, Seq<char>)> {
    ls.map_values(
        |l: Seq<char>|
            {
                let e = line_entry(l)->Some_0;
                (e.0, e.1, e.2.subrange(1, e.2.len() - 1))
            },
    )
}

/// What a pasted text asks for: a Moxfield deck (the part after the last
/// slash), a Scryfall card by identifier (an address with exactly four
/// slashes) or by set and collector number (the third and second parts
/// from the right), or else a deck list, or nothing when a line of it does
/// not read.
pub open spec fn paste_request(paste: Seq<char>) -> PasteView {
    let p = cleaned(paste);
    if is_moxfield(p) {
        PasteView::Moxfield(rsplit_once(p, seq!['/'])->Some_0.1)
    } else if is_scryfall(p) {
        if slash_count(p) == 4 {
            PasteView::ScryfallId(rsplit_once(p, seq!['/'])->Some_0.1)
        } else {
            let parts = rsplit4(p);
            if parts.len() < 3 {
                PasteView::Nothing
            } else {
                PasteView::ScryfallPrinting(parts[2], parts[1])
            }
        }
    } else {
        let ls = lines(p);
        if lines_read_upto(ls, ls.len() as int) {
            PasteView::DeckList(deck_entries(ls))
        } else {
            PasteView::Nothing
        }
    }
}

/// A text with a slash in it has a last one.
proof fn lemma_slash_found(s: Seq<char>)
    requires
        slash_count(s) > 0,
    ensures
        rsplit_once(s, seq!['/']) is Some,
{
    let k = lemma_slash_at(s);
    assert(s.subrange(k, k + 1) =~= seq!['/']);
    lemma_rfind_reaches(s, seq!['/'], s.len() - 1, k);
}

proof fn lemma_slash_at(s: Seq<char>) -> (k: int)
    requires
        slash_count(s) > 0,
    ensures
        0 <= k < s.len(),
        s[k] == '/',
    decreases s.len(),
{
    if s.last() == '/' {
        s.len() - 1
    } else {
        let k = lemma_slash_at(s.drop_last());
        k
    }
}

proof fn lemma_rfind_reaches(s: Seq<char>, pat: Seq<char>, i: int, k: int)
    requires
        0 <= k <= i,
        crate::text::matches_at(s, pat, k),
    ensures
        crate::text::rfind_from(s, pat, i) is Some,
    decreases i,
{
    if !crate::text::matches_at(s, pat, i) {
        lemma_rfind_reaches(s, pat, i - 1, k);
    }
}

fn utf8_len_exec(s: &[char]) -> (r: usize)
    ensures
        r as nat == utf8_len(s@) || (r == usize::MAX && utf8_len(s@) >= usize::MAX),
{
    let mut n: usize = 0;
    let mut k: usize = 0;
    while k < s.len()
        invariant
            k <= s@.len(),
            n as nat == utf8_len(s@.subrange(0, k as int)) || (n == usize::MAX && utf8_len(
                s@.subrange(0, k as int),
            ) >= usize::MAX),
        decreases s@.len() - k,
    {
        assert(s@.subrange(0, k + 1 as int).drop_last() =~= s@.subrange(0, k as int));
        let c = s[k] as u32;
        let w: usize = if c < 0x80 {
            1
        } else if c < 0x800 {
            2
        } else if c < 0x10000 {
            3
        } else {
            4
        };
        if n > usize::MAX - w {
            n = usize::MAX;
        } else {
            n = n + w;
        }
        k = k + 1;
    }
    assert(s@.subrange(0, s@.len() as int) =~= s@);
    n
}

fn trim_slashes_exec(s: &[char]) -> (r: Vec<char>)
    ensures
        r@ == trim_slashes(s@),
{
    let mut b = s.len();
    assert(s@.subrange(0, s@.len() as int) =~= s@);
    while b > 0 && s[b - 1] == '/'
        invariant
            b <= s@.len(),
            trim_slashes(s@) == trim_slashes(s@.subrange(0, b as int)),
        decreases b,
    {
        assert(s@.subrange(0, b as int).drop_last() =~= s@.subrange(0, b - 1));
        b = b - 1;
    }
    assert(s@.subrange(0, s@.len() as int) =~= s@);
    slice(s, 0, b)
}

fn slash_count_exec(s: &[char]) -> (r: usize)
    ensures
        r as nat == slash_count(s@),
{
    let mut n: usize = 0;
    let mut k: usize = 0;
    while k < s.len()
        invariant
            k <= s@.len(),
            n as nat == slash_count(s@.subrange(0, k as int)),
            n <= k,
        decreases s@.len() - k,
    {
        assert(s@.subrange(0, k + 1 as int).drop_last() =~= s@.subrange(0, k as int));
        if s[k] == '/' {
            n = n + 1;
        }
        k = k + 1;
    }
    assert(s@.subrange(0, s@.len() as int) =~= s@);
    n
}

fn rsplit4_exec(s: &[char]) -> (r: Vec<Vec<char>>)
    ensures
        r@.map_values(|v: Vec<char>| v@) == rsplit4(s@),
{
    let slash: Vec<char> = vec!['/'];
    assert(slash@ =~= seq!['/']);
    let mut r: Vec<Vec<char>> = Vec::new();
    match rsplit_once_exec(s, &slash) {
        None => {
            r.push(slice(s, 0, s.len()));
            assert(s@.subrange(0, s@.len() as int) =~= s@);
        },
        Some((a0, a1)) => match rsplit_once_exec(&a0, &slash) {
            None => {
                r.push(a1);
                r.push(a0);
            },
            Some((b0, b1)) => match rsplit_once_exec(&b0, &slash) {
                None => {
                    r.push(a1);
                    r.push(b1);
                    r.push(b0);
                },
                Some((c0, c1)) => {
                    r.push(a1);
                    r.push(b1);
                    r.push(c1);
                    r.push(c0);
                },
            },
        },
    }
    assert(r@.map_values(|v: Vec<char>| v@) =~= rsplit4(s@));
    r
}

/// Reads one deck list line into its count, collector number and set code
/// in brackets; `None` when it does not read.
fn line_parts(l: &[char]) -> (r: Option<(usize, Vec<char>, Vec<char>)>)
    ensures
        r is None <==> line_entry(l@) is None,
        r matches Some(e) ==> {
            let x = line_entry(l@)->Some_0;
            e.0 == x.0 && e.1@ == x.1 && e.2@ == x.2
        },
{
    if l.len() == 0 || !(l[0] >= '0' && l[0] <= '9') {
        return None;
    }
    let space: Vec<char> = vec![' '];
    assert(space@ =~= seq![' ']);
    let parts = split_exec(l, &space);
    let n = parts.len();
    assert(parts@.map_values(|v: Vec<char>| v@).len() == n);
    if n < 3 {
        return None;
    }
    assert(parts@.map_values(|v: Vec<char>| v@)[0] == parts@[0]@);
    assert(parts@.map_values(|v: Vec<char>| v@)[n - 1] == parts@[n - 1]@);
    assert(parts@.map_values(|v: Vec<char>| v@)[n - 2] == parts@[n - 2]@);
    let count = match parse_unsigned_exec(&parts[0], usize::MAX as u64) {
        None => {
            return None;
        },
        Some(c) => c as usize,
    };
    let cn = slice(&parts[n - 1], 0, parts[n - 1].len());
    let set = slice(&parts[n - 2], 0, parts[n - 2].len());
    assert(parts@[n - 1]@.subrange(0, parts@[n - 1]@.len() as int) =~= parts@[n - 1]@);
    assert(parts@[n - 2]@.subrange(0, parts@[n - 2]@.len() as int) =~= parts@[n - 2]@);
    Some((count, cn, set))
}

fn set_cuttable_exec(set: &[char]) -> (r: bool)
    ensures
        r == set_cuttable(set@),
{
    set.len() >= 2 && (set[0] as u32) < 0x80 && (set[set.len() - 1] as u32) < 0x80
}

/// Reads one deck list line; `None` when it does not read.
fn read_line(l: &[char]) -> (r: Option<Exact>)
    requires
        line_entry(l@) is Some ==> set_cuttable(line_entry(l@)->Some_0.2),
    ensures
        r is None <==> line_entry(l@) is None,
        r matches Some(e) ==> {
            let x = line_entry(l@)->Some_0;
            e.count == x.0 && e.cn@ == x.1 && e.set@ == x.2.subrange(1, x.2.len() - 1)
        },
{
    match line_parts(l) {
        None => None,
        Some((count, cn, set)) => {
            let inner = slice(&set, 1, set.len() - 1);
            Some(Exact { count, cn: string_of(&cn), set: string_of(&inner) })
        },
    }
}

/// Whether a pasted text can be read without failing (see
/// `paste_readable`).
pub fn paste_ok(paste: &str) -> (r: bool)
    ensures
        r == paste_readable(paste@),
{
    proof {
        reveal_strlit("https://moxfield.com/decks/");
        reveal_strlit("https://www.moxfield.com/decks/");
        reveal_strlit("https://scryfall.com/card/");
    }
    let raw = chars_of(paste);
    let t = trim_exec(&raw);
    let p = trim_slashes_exec(&t);
    let slash: Vec<char> = vec!['/'];
    assert(slash@ =~= seq!['/']);
    let mox = chars_of("https://moxfield.com/decks/");
    let mox_www = chars_of("https://www.moxfield.com/decks/");
    let scry = chars_of("https://scryfall.com/card/");
    let len = utf8_len_exec(&p);
    if starts_with_exec(&p, &mox) || starts_with_exec(&p, &mox_www) || len == 22 {
        return rsplit_once_exec(&p, &slash).is_some();
    }
    if starts_with_exec(&p, &scry) {
        return true;
    }
    let ls = lines_exec(&p);
    let ghost lv = ls@.map_values(|v: Vec<char>| v@);
    let mut i: usize = 0;
    while i < ls.len()
        invariant
            i <= ls@.len(),
            lv == ls@.map_values(|v: Vec<char>| v@),
            lv == lines(p@),
            p@ == cleaned(paste@),
            !is_moxfield(p@),
            !is_scryfall(p@),
            lines_read_upto(lv, i as int),
            forall|j: int|
                0 <= j < i && lines_read_upto(lv, j) && #[trigger] line_entry(lv[j]) is Some
                    ==> set_cuttable(line_entry(lv[j])->Some_0.2),
        decreases ls@.len() - i,
    {
        assert(lv[i as int] == ls@[i as int]@);
        match line_parts(&ls[i]) {
            None => {
                proof {
                    assert forall|j: int|
                        0 <= j < lv.len() && lines_read_upto(lv, j) && #[trigger] line_entry(lv[j])
                            is Some implies set_cuttable(line_entry(lv[j])->Some_0.2) by {
                        if j > i {
                            assert(line_entry(lv[i as int]) is Some);
                        }
                    }
                }
                return true;
            },
            Some((_, _, set)) => {
                if !set_cuttable_exec(&set) {
                    return false;
                }
            },
        }
        i = i + 1;
    }
    true
}

/// Reads a pasted text (see `paste_request`). The text must be readable
/// without failing (see `paste_readable`).
pub fn classify_paste(paste: &str) -> (r: Paste)
    requires
        paste_readable(paste@),
    ensures
        paste_view(r) == paste_request(paste@),
{
    proof {
        reveal_strlit("https://moxfield.com/decks/");
        reveal_strlit("https://www.moxfield.com/decks/");
        reveal_strlit("https://scryfall.com/card/");
    }
    let raw = chars_of(paste);
    let t = trim_exec(&raw);
    let p = trim_slashes_exec(&t);
    let slash: Vec<char> = vec!['/'];
    assert(slash@ =~= seq!['/']);
    let mox = chars_of("https://moxfield.com/decks/");
    let mox_www = chars_of("https://www.moxfield.com/decks/");
    let scry = chars_of("https://scryfall.com/card/");
    let len = utf8_len_exec(&p);
    if starts_with_exec(&p, &mox) || starts_with_exec(&p, &mox_www) || len == 22 {
        let (_, id) = rsplit_once_exec(&p, &slash).unwrap();
        return Paste::Moxfield(string_of(&id));
    }
    if starts_with_exec(&p, &scry) {
        if slash_count_exec(&p) == 4 {
            proof {
                lemma_slash_found(p@);
            }
            let (_, id) = rsplit_once_exec(&p, &slash).unwrap();
            return Paste::ScryfallId(string_of(&id));
        }
        let parts = rsplit4_exec(&p);
        assert(parts@.map_values(|v: Vec<char>| v@).len() == parts@.len());
        if parts.len() < 3 {
            return Paste::Nothing;
        }
        assert(parts@.map_values(|v: Vec<char>| v@)[1] == parts@[1]@);
        assert(parts@.map_values(|v: Vec<char>| v@)[2] == parts@[2]@);
        return Paste::ScryfallPrinting { set: string_of(&parts[2]), cn: string_of(&parts[1]) };
    }
    let ls = lines_exec(&p);
    let ghost lv = ls@.map_values(|v: Vec<char>| v@);
    let mut list: Vec<Exact> = Vec::new();
    let mut i: usize = 0;
    while i < ls.len()
        invariant
            i <= ls@.len(),
            lv == ls@.map_values(|v: Vec<char>| v@),
            lv == lines(p@),
            p@ == cleaned(paste@),
            !is_moxfield(p@),
            !is_scryfall(p@),
            deck_list_safe(lv),
            lines_read_upto(lv, i as int),
            list@.map_values(|e: Exact| (e.count as int, e.cn@, e.set@)) == deck_entries(
                lv.subrange(0, i as int),
            ),
        decreases ls@.len() - i,
    {
        assert(lv[i as int] == ls@[i as int]@);
        match read_line(&ls[i]) {
            None => {
                assert(line_entry(lv[i as int]) is None);
                assert(!lines_read_upto(lv, lv.len() as int));
                return Paste::Nothing;
            },
            Some(e) => {
                let ghost before = list@;
                let ghost ev = (e.count as int, e.cn@, e.set@);
                list.push(e);
                proof {
                    assert(list@.map_values(|e: Exact| (e.count as int, e.cn@, e.set@)) =~= before.map_values(
                        |e: Exact| (e.count as int, e.cn@, e.set@),
                    ).push(ev));
                    assert(lv.subrange(0, i + 1 as int) =~= lv.subrange(0, i as int).push(lv[i as int]));
                    assert(deck_entries(lv.subrange(0, i + 1 as int)) =~= deck_entries(
                        lv.subrange(0, i as int),
                    ).push(ev));
                }
            },
        }
        i = i + 1;
    }
    assert(lv.subrange(0, ls@.len() as int) =~= lv);
    Paste::DeckList(list)
}

} // verus!
