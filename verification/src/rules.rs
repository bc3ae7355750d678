use vstd::prelude::*;

use crate::text::{
    chars_of, eq_chars, lines, lines_exec, replace, replace_exec, rsplit_once, rsplit_once_exec,
    slice, split_exec, split_once, split_once_exec, starts_with, starts_with_exec, string_of,
    without_char, without_char_exec,
};
use crate::types::TypeCatalog;

verus! {

/// A name with its hyphens, apostrophes and spaces taken out, as it can
/// stand as an identifier.
pub open spec fn fixed(ty: Seq<char>) -> Seq<char> {
    ty.filter(|c: char| c != '-' && c != '’' && c != ' ')
}

/// Takes hyphens, apostrophes and spaces out of a name.
pub fn fix(ty: &str) -> (r: String)
    ensures
        r@ == fixed(ty@),
{
    let cs = chars_of(ty);
    let mut out: Vec<char> = Vec::new();
    let mut k: usize = 0;
    while k < cs.len()
        invariant
            k <= cs@.len(),
            cs@ == ty@,
            out@ == fixed(cs@.subrange(0, k as int)),
        decreases cs@.len() - k,
    {
        proof {
            assert(cs@.subrange(0, k + 1 as int).drop_last() =~= cs@.subrange(0, k as int));
            reveal_with_fuel(Seq::filter, 1);
        }
        let c = cs[k];
        if c != '-' && c != '’' && c != ' ' {
            out.push(c);
        }
        k = k + 1;
    }
    assert(cs@.subrange(0, cs@.len() as int) =~= cs@);
    string_of(&out)
}

/// A listed name without the remark in brackets that may follow it.
pub open spec fn before_paren(a: Seq<char>) -> Seq<char> {
    match split_once(a, " ("@) {
        Some((v, _)) => v,
        None => a,
    }
}

/// The names a rule lists after its last " are ": separated by commas and
/// a final "and", the closing full stop dropped, each name without the
/// remark in brackets that may follow it.
pub open spec fn rule_names(s: Seq<char>) -> Seq<Seq<char>> {
    let tail = rsplit_once(s, " are "@)->Some_0.1;
    let list = without_char(replace(tail, " and "@, " "@), '.');
    crate::text::split(list, ", "@).map_values(|a: Seq<char>| before_paren(a))
}

/// The names a rule lists, as characters.
fn rule_names_exec(s: &[char]) -> (r: Vec<Vec<char>>)
    requires
        rsplit_once(s@, " are "@) is Some,
    ensures
        r@.map_values(|v: Vec<char>| v@) == rule_names(s@),
{
    proof {
        reveal_strlit(" are ");
        reveal_strlit(" and ");
        reveal_strlit(", ");
        reveal_strlit(" (");
    }
    let are = chars_of(" are ");
    let and = chars_of(" and ");
    let space = chars_of(" ");
    let comma = chars_of(", ");
    let paren = chars_of(" (");
    let (_, tail) = rsplit_once_exec(s, &are).unwrap();
    let replaced = replace_exec(&tail, &and, &space);
    let list = without_char_exec(&replaced, '.');
    let pieces = split_exec(&list, &comma);
    let ghost ps = pieces@.map_values(|v: Vec<char>| v@);
    let mut r: Vec<Vec<char>> = Vec::new();
    let mut i: usize = 0;
    while i < pieces.len()
        invariant
            i <= pieces@.len(),
            ps == pieces@.map_values(|v: Vec<char>| v@),
            paren@ == " ("@,
            paren@.len() > 0,
            r@.map_values(|v: Vec<char>| v@) == ps.subrange(0, i as int).map_values(
                |a: Seq<char>| before_paren(a),
            ),
        decreases pieces@.len() - i,
    {
        let a = &pieces[i];
        let name = match split_once_exec(a, &paren) {
            Some((v, _)) => v,
            None => slice(a, 0, a.len()),
        };
        proof {
            assert(a@.subrange(0, a@.len() as int) =~= a@);
            assert(ps[i as int] == a@);
            assert(name@ == before_paren(a@));
        }
        let ghost before = r@;
        r.push(name);
        proof {
            assert(r@.map_values(|v: Vec<char>| v@) =~= before.map_values(|v: Vec<char>| v@).push(
                name@,
            ));
            assert(ps.subrange(0, i + 1 as int).map_values(|a: Seq<char>| before_paren(a))
                =~= ps.subrange(0, i as int).map_values(|a: Seq<char>| before_paren(a)).push(
                before_paren(ps[i as int]),
            ));
            assert(r@.map_values(|v: Vec<char>| v@) =~= ps.subrange(0, i + 1 as int).map_values(
                |a: Seq<char>| before_paren(a),
            ));
        }
        i = i + 1;
    }
    assert(ps.subrange(0, pieces@.len() as int) =~= ps);
    r
}

/// The names a rule of the comprehensive rules lists after its last
/// " are " (its list of subtypes). The rule must hold " are ".
pub fn split(s: &str) -> (r: Vec<String>)
    requires
        rsplit_once(s@, " are "@) is Some,
    ensures
        r@.map_values(|x: String| x@) == rule_names(s@),
{
    let cs = chars_of(s);
    let names = rule_names_exec(&cs);
    let mut r: Vec<String> = Vec::new();
    let mut i: usize = 0;
    while i < names.len()
        invariant
            i <= names@.len(),
            names@.map_values(|v: Vec<char>| v@) == rule_names(s@),
            r@.map_values(|x: String| x@) == names@.subrange(0, i as int).map_values(
                |v: Vec<char>| v@,
            ),
        decreases names@.len() - i,
    {
        let ghost before = r@;
        let x = string_of(&names[i]);
        assert(x@ == names@[i as int]@);
        r.push(x);
        assert(r@.map_values(|x: String| x@) =~= before.map_values(|x: String| x@).push(x@));
        assert(names@.subrange(0, i + 1 as int).map_values(|v: Vec<char>| v@) =~= names@.subrange(
            0,
            i as int,
        ).map_values(|v: Vec<char>| v@).push(names@[i as int]@));
        assert(r@.map_values(|x: String| x@) =~= names@.subrange(0, i + 1 as int).map_values(
            |v: Vec<char>| v@,
        ));
        i = i + 1;
    }
    assert(names@.subrange(0, names@.len() as int) =~= names@);
    r
}


/// The first of the lines from `i` on that starts with `p`.
pub open spec fn line_starting(ls: Seq<Seq<char>>, p: Seq<char>, i: int) -> Option<Seq<char>>
    decreases ls.len() - i,
{
    if i < 0 || i >= ls.len() {
        None
    } else if starts_with(ls[i], p) {
        Some(ls[i])
    } else {
        line_starting(ls, p, i + 1)
    }
}

/// The rule of the rules text `rules` whose line starts with `p`.
pub open spec fn rule_line(rules: Seq<char>, p: Seq<char>) -> Seq<char> {
    line_starting(lines(rules), p, 0)->Some_0
}

/// The part of the land types rule before its remark "Of that list".
pub open spec fn land_part(l: Seq<char>) -> Seq<char> {
    rsplit_once(l, " Of that list"@)->Some_0.0
}

/// The one-word creature types: the list after the rule's last ": ".
pub open spec fn one_word_names(l: Seq<char>) -> Seq<Seq<char>> {
    let tail = rsplit_once(l, ": "@)->Some_0.1;
    crate::text::split(without_char(replace(tail, " and "@, " "@), '.'), ", "@)
}

/// The two-word creature types: the list after the rule's first ": ", up
/// to the first full stop.
pub open spec fn two_word_names(l: Seq<char>) -> Seq<Seq<char>> {
    let tail = replace(split_once(l, ": "@)->Some_0.1, " and "@, " "@);
    crate::text::split(split_once(tail, "."@)->Some_0.0, ", "@)
}

/// Whether a rules text holds every rule the subtypes are read from, in the
/// shape they are read in.
pub open spec fn catalog_text_ok(rules: Seq<char>) -> bool {
    let ls = lines(rules);
    let m = rule_line(rules, "205.3m"@);
    &&& line_starting(ls, "205.3n"@, 0) is Some
    &&& line_starting(ls, "205.3k"@, 0) is Some
    &&& line_starting(ls, "205.3j"@, 0) is Some
    &&& line_starting(ls, "205.3i"@, 0) is Some
    &&& line_starting(ls, "205.3h"@, 0) is Some
    &&& line_starting(ls, "205.3g"@, 0) is Some
    &&& line_starting(ls, "205.3m"@, 0) is Some
    &&& rsplit_once(rule_line(rules, "205.3n"@), " are "@) is Some
    &&& rsplit_once(rule_line(rules, "205.3k"@), " are "@) is Some
    &&& rsplit_once(rule_line(rules, "205.3j"@), " are "@) is Some
    &&& rsplit_once(rule_line(rules, "205.3i"@), " Of that list"@) is Some
    &&& rsplit_once(land_part(rule_line(rules, "205.3i"@)), " are "@) is Some
    &&& rsplit_once(rule_line(rules, "205.3h"@), " are "@) is Some
    &&& rsplit_once(rule_line(rules, "205.3g"@), " are "@) is Some
    &&& rsplit_once(m, ": "@) is Some
    &&& split_once(m, ": "@) is Some
    &&& split_once(replace(split_once(m, ": "@)->Some_0.1, " and "@, " "@), "."@) is Some
}

/// The subtypes the rules text names, in this order: the planar types but
/// "Spacecraft", the spell types, the planeswalker types, the land types,
/// the enchantment types, the artifact types, the one-word and then the
/// two-word creature types, and last "Undercity" and "Siege".
pub open spec fn catalog_of(rules: Seq<char>) -> Seq<Seq<char>> {
    let m = rule_line(rules, "205.3m"@);
    rule_names(rule_line(rules, "205.3n"@)).filter(|a: Seq<char>| a != "Spacecraft"@)
        + rule_names(rule_line(rules, "205.3k"@))
        + rule_names(rule_line(rules, "205.3j"@))
        + rule_names(land_part(rule_line(rules, "205.3i"@)))
        + rule_names(rule_line(rules, "205.3h"@))
        + rule_names(rule_line(rules, "205.3g"@))
        + one_word_names(m)
        + two_word_names(m)
        + seq!["Undercity"@, "Siege"@]
}

/// The first line that starts with `p`, copied.
fn find_line(ls: &Vec<Vec<char>>, p: &str) -> (r: Option<Vec<char>>)
    ensures
        r is None <==> line_starting(ls@.map_values(|v: Vec<char>| v@), p@, 0) is None,
        r matches Some(l) ==> line_starting(ls@.map_values(|v: Vec<char>| v@), p@, 0) == Some(l@),
{
    let ghost v = ls@.map_values(|v: Vec<char>| v@);
    let pc = chars_of(p);
    let mut i: usize = 0;
    while i < ls.len()
        invariant
            i <= ls@.len(),
            v == ls@.map_values(|v: Vec<char>| v@),
            pc@ == p@,
            line_starting(v, p@, 0) == line_starting(v, p@, i as int),
        decreases ls@.len() - i,
    {
        assert(v[i as int] == ls@[i as int]@);
        if starts_with_exec(&ls[i], &pc) {
            let l = &ls[i];
            let c = slice(l, 0, l.len());
            assert(l@.subrange(0, l@.len() as int) =~= l@);
            return Some(c);
        }
        i = i + 1;
    }
    None
}

/// Appends the pieces of `more` to `out`.
fn append_names(out: &mut Vec<Vec<char>>, more: Vec<Vec<char>>)
    ensures
        final(out)@.map_values(|v: Vec<char>| v@) == old(out)@.map_values(|v: Vec<char>| v@)
            + more@.map_values(|v: Vec<char>| v@),
{
    let mut more = more;
    let ghost m = more@;
    out.append(&mut more);
    assert(out@.map_values(|v: Vec<char>| v@) =~= old(out)@.map_values(|v: Vec<char>| v@)
        + m.map_values(|v: Vec<char>| v@));
}

/// The names without "Spacecraft".
fn drop_spacecraft(names: Vec<Vec<char>>) -> (r: Vec<Vec<char>>)
    ensures
        r@.map_values(|v: Vec<char>| v@) == names@.map_values(|v: Vec<char>| v@).filter(
            |a: Seq<char>| a != "Spacecraft"@,
        ),
{
    let ghost ns = names@.map_values(|v: Vec<char>| v@);
    let sc = chars_of("Spacecraft");
    let mut r: Vec<Vec<char>> = Vec::new();
    let mut i: usize = 0;
    let n = names.len();
    while i < n
        invariant
            n == names@.len(),
            i <= n,
            ns == names@.map_values(|v: Vec<char>| v@),
            sc@ == "Spacecraft"@,
            r@.map_values(|v: Vec<char>| v@) == ns.subrange(0, i as int).filter(
                |a: Seq<char>| a != "Spacecraft"@,
            ),
        decreases n - i,
    {
        proof {
            assert(ns.subrange(0, i + 1 as int).drop_last() =~= ns.subrange(0, i as int));
            reveal_with_fuel(Seq::filter, 1);
        }
        let a = &names[i];
        assert(ns[i as int] == a@);
        if !eq_chars(a, &sc) {
            let ghost before = r@;
            r.push(slice(a, 0, a.len()));
            assert(a@.subrange(0, a@.len() as int) =~= a@);
            assert(r@.map_values(|v: Vec<char>| v@) =~= before.map_values(|v: Vec<char>| v@).push(
                a@,
            ));
        }
        i = i + 1;
    }
    assert(ns.subrange(0, n as int) =~= ns);
    r
}

/// The subtypes a text of the comprehensive rules names (see
/// `catalog_of`), as the catalog card type lines are read against. The
/// text must hold the rules they are read from.
pub fn generate_types(rules: &str) -> (r: TypeCatalog)
    requires
        catalog_text_ok(rules@),
    ensures
        r@ == catalog_of(rules@),
{
    proof {
        reveal_strlit(" are ");
        reveal_strlit(" Of that list");
        reveal_strlit(": ");
        reveal_strlit(" and ");
        reveal_strlit(", ");
        reveal_strlit(".");
    }
    let text = chars_of(rules);
    let ls = lines_exec(&text);
    let n = find_line(&ls, "205.3n").unwrap();
    let k = find_line(&ls, "205.3k").unwrap();
    let j = find_line(&ls, "205.3j").unwrap();
    let i = find_line(&ls, "205.3i").unwrap();
    let h = find_line(&ls, "205.3h").unwrap();
    let g = find_line(&ls, "205.3g").unwrap();
    let m = find_line(&ls, "205.3m").unwrap();
    let of_that = chars_of(" Of that list");
    let colon = chars_of(": ");
    let and = chars_of(" and ");
    let space = chars_of(" ");
    let comma = chars_of(", ");
    let dot = chars_of(".");
    let (land, _) = rsplit_once_exec(&i, &of_that).unwrap();

    let mut names = drop_spacecraft(rule_names_exec(&n));
    append_names(&mut names, rule_names_exec(&k));
    append_names(&mut names, rule_names_exec(&j));
    append_names(&mut names, rule_names_exec(&land));
    append_names(&mut names, rule_names_exec(&h));
    append_names(&mut names, rule_names_exec(&g));

    let (_, one_tail) = rsplit_once_exec(&m, &colon).unwrap();
    let one_list = without_char_exec(&replace_exec(&one_tail, &and, &space), '.');
    append_names(&mut names, split_exec(&one_list, &comma));

    let (_, two_tail) = split_once_exec(&m, &colon).unwrap();
    let two_replaced = replace_exec(&two_tail, &and, &space);
    let (two_list, _) = split_once_exec(&two_replaced, &dot).unwrap();
    append_names(&mut names, split_exec(&two_list, &comma));

    let mut last: Vec<Vec<char>> = Vec::new();
    last.push(chars_of("Undercity"));
    last.push(chars_of("Siege"));
    assert(last@.map_values(|v: Vec<char>| v@) =~= seq!["Undercity"@, "Siege"@]);
    append_names(&mut names, last);
    TypeCatalog { names }
}


/// Whether a rules text holds every rule the subtypes are read from, in the
/// shape they are read in (see `catalog_text_ok`).
pub fn catalog_readable(rules: &str) -> (r: bool)
    ensures
        r == catalog_text_ok(rules@),
{
    proof {
        reveal_strlit(" are ");
        reveal_strlit(" Of that list");
        reveal_strlit(": ");
        reveal_strlit(" and ");
        reveal_strlit(".");
    }
    let text = chars_of(rules);
    let ls = lines_exec(&text);
    let are = chars_of(" are ");
    let of_that = chars_of(" Of that list");
    let colon = chars_of(": ");
    let and = chars_of(" and ");
    let space = chars_of(" ");
    let dot = chars_of(".");
    let n = match find_line(&ls, "205.3n") {
        Some(l) => l,
        None => return false,
    };
    let k = match find_line(&ls, "205.3k") {
        Some(l) => l,
        None => return false,
    };
    let j = match find_line(&ls, "205.3j") {
        Some(l) => l,
        None => return false,
    };
    let i = match find_line(&ls, "205.3i") {
        Some(l) => l,
        None => return false,
    };
    let h = match find_line(&ls, "205.3h") {
        Some(l) => l,
        None => return false,
    };
    let g = match find_line(&ls, "205.3g") {
        Some(l) => l,
        None => return false,
    };
    let m = match find_line(&ls, "205.3m") {
        Some(l) => l,
        None => return false,
    };
    if rsplit_once_exec(&n, &are).is_none() || rsplit_once_exec(&k, &are).is_none()
        || rsplit_once_exec(&j, &are).is_none() || rsplit_once_exec(&h, &are).is_none()
        || rsplit_once_exec(&g, &are).is_none() {
        return false;
    }
    let land = match rsplit_once_exec(&i, &of_that) {
        Some((a, _)) => a,
        None => return false,
    };
    if rsplit_once_exec(&land, &are).is_none() || rsplit_once_exec(&m, &colon).is_none() {
        return false;
    }
    match split_once_exec(&m, &colon) {
        None => false,
        Some((_, tail)) => {
            let replaced = replace_exec(&tail, &and, &space);
            split_once_exec(&replaced, &dot).is_some()
        },
    }
}

} // verus!
