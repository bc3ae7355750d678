use vstd::prelude::*;

use crate::text::{chars_of, eq_chars, lower_all, split, split_exec, to_ascii_lowercase};
use std::cmp::Ordering;

verus! {

/// A supertype of the game's type line.
#[derive(Clone, Copy, PartialEq, Eq, Structural, Debug)]
pub enum SuperType {
    Basic,
    Legendary,
    Ongoing,
    Snow,
    World,
}

/// A card type of the game's type line.
#[derive(Clone, Copy, PartialEq, Eq, Structural, Debug)]
pub enum MainType {
    Land,
    Phenomenon,
    Plane,
    Scheme,
    Vanguard,
    Creature,
    Artifact,
    Enchantment,
    PlanesWalker,
    Conspiracy,
    Battle,
    Dungeon,
    Instant,
    Sorcery,
    Kindred,
}

/// A subtype of the game's type line: its position in the list of subtypes
/// that the comprehensive rules name (see `TypeCatalog`).
#[derive(Clone, Copy, PartialEq, Eq, Structural, Debug)]
pub struct SubType(pub usize);

/// The subtypes the comprehensive rules name, in the rules' spelling and
/// order.
pub struct TypeCatalog {
    pub names: Vec<Vec<char>>,
}

pub struct SuperTypes(pub Vec<SuperType>);

pub struct MainTypes(pub Vec<MainType>);

pub struct SubTypes(pub Vec<SubType>);

/// A card's type line split into its three parts.
pub struct Types {
    pub super_type: SuperTypes,
    pub main_type: MainTypes,
    pub sub_type: SubTypes,
}

/// The supertype a word names, whatever its ASCII case.
pub open spec fn super_type_of(w: Seq<char>) -> Option<SuperType> {
    let l = lower_all(w);
    if l == "basic"@ {
        Some(SuperType::Basic)
    } else if l == "legendary"@ {
        Some(SuperType::Legendary)
    } else if l == "ongoing"@ {
        Some(SuperType::Ongoing)
    } else if l == "snow"@ {
        Some(SuperType::Snow)
    } else if l == "world"@ {
        Some(SuperType::World)
    } else {
        None
    }
}

/// The card type a word names, whatever its ASCII case.
pub open spec fn main_type_of(w: Seq<char>) -> Option<MainType> {
    let l = lower_all(w);
    if l == "land"@ {
        Some(MainType::Land)
    } else if l == "phenomenon"@ {
        Some(MainType::Phenomenon)
    } else if l == "plane"@ {
        Some(MainType::Plane)
    } else if l == "scheme"@ {
        Some(MainType::Scheme)
    } else if l == "vanguard"@ {
        Some(MainType::Vanguard)
    } else if l == "creature"@ {
        Some(MainType::Creature)
    } else if l == "artifact"@ {
        Some(MainType::Artifact)
    } else if l == "enchantment"@ {
        Some(MainType::Enchantment)
    } else if l == "planeswalker"@ {
        Some(MainType::PlanesWalker)
    } else if l == "conspiracy"@ {
        Some(MainType::Conspiracy)
    } else if l == "battle"@ {
        Some(MainType::Battle)
    } else if l == "dungeon"@ {
        Some(MainType::Dungeon)
    } else if l == "instant"@ {
        Some(MainType::Instant)
    } else if l == "sorcery"@ {
        Some(MainType::Sorcery)
    } else if l == "kindred"@ {
        Some(MainType::Kindred)
    } else {
        None
    }
}

/// The first position from `k` on whose catalog name is the word, whatever
/// their ASCII case.
pub open spec fn sub_type_from(names: Seq<Seq<char>>, w: Seq<char>, k: int) -> Option<int>
    decreases names.len() - k,
{
    if k < 0 || k >= names.len() {
        None
    } else if lower_all(names[k]) == lower_all(w) {
        Some(k)
    } else {
        sub_type_from(names, w, k + 1)
    }
}

/// The subtype a word names in the catalog.
pub open spec fn sub_type_of(names: Seq<Seq<char>>, w: Seq<char>) -> Option<SubType> {
    match sub_type_from(names, w, 0) {
        Some(k) => Some(SubType(k as usize)),
        None => None,
    }
}

/// The parts of a type line whose words are `ws`: each word goes to the
/// first part that knows it, supertypes first, unknown words are skipped.
pub open spec fn types_of_words(names: Seq<Seq<char>>, ws: Seq<Seq<char>>) -> (
    Seq<SuperType>,
    Seq<MainType>,
    Seq<SubType>,
)
    decreases ws.len(),
{
    if ws.len() == 0 {
        (seq![], seq![], seq![])
    } else {
        let (a, b, c) = types_of_words(names, ws.drop_last());
        let w = ws.last();
        match super_type_of(w) {
            Some(t) => (a.push(t), b, c),
            None => match main_type_of(w) {
                Some(t) => (a, b.push(t), c),
                None => match sub_type_of(names, w) {
                    Some(t) => (a, b, c.push(t)),
                    None => (a, b, c),
                },
            },
        }
    }
}

/// The supertypes among the words, in order.
pub open spec fn super_types_of_words(ws: Seq<Seq<char>>) -> Seq<SuperType>
    decreases ws.len(),
{
    if ws.len() == 0 {
        seq![]
    } else {
        let a = super_types_of_words(ws.drop_last());
        match super_type_of(ws.last()) {
            Some(t) => a.push(t),
            None => a,
        }
    }
}

/// The card types among the words, in order.
pub open spec fn main_types_of_words(ws: Seq<Seq<char>>) -> Seq<MainType>
    decreases ws.len(),
{
    if ws.len() == 0 {
        seq![]
    } else {
        let a = main_types_of_words(ws.drop_last());
        match main_type_of(ws.last()) {
            Some(t) => a.push(t),
            None => a,
        }
    }
}

/// The subtypes among the words, in order.
pub open spec fn sub_types_of_words(names: Seq<Seq<char>>, ws: Seq<Seq<char>>) -> Seq<SubType>
    decreases ws.len(),
{
    if ws.len() == 0 {
        seq![]
    } else {
        let a = sub_types_of_words(names, ws.drop_last());
        match sub_type_of(names, ws.last()) {
            Some(t) => a.push(t),
            None => a,
        }
    }
}

/// Whether every element of `b` also occurs in `a`.
pub open spec fn covers<T>(a: Seq<T>, b: Seq<T>) -> bool {
    forall|i: int| 0 <= i < b.len() ==> a.contains(#[trigger] b[i])
}

/// How two lists compare as sets: equal, a superset (greater), a subset
/// (less), or neither.
pub open spec fn set_compare(left: bool, right: bool) -> Option<Ordering> {
    if left && right {
        Some(Ordering::Equal)
    } else if left {
        Some(Ordering::Greater)
    } else if right {
        Some(Ordering::Less)
    } else {
        None
    }
}

fn set_compare_exec(left: bool, right: bool) -> (r: Option<Ordering>)
    ensures
        r == set_compare(left, right),
{
    if left && right {
        Some(Ordering::Equal)
    } else if left {
        Some(Ordering::Greater)
    } else if right {
        Some(Ordering::Less)
    } else {
        None
    }
}

fn word_is(lower: &Vec<char>, w: &str) -> (r: bool)
    ensures
        r == (lower@ == w@),
{
    let c = chars_of(w);
    eq_chars(lower, &c)
}

impl SuperType {
    /// The supertype a word names, whatever its ASCII case.
    pub fn from_str(w: &[char]) -> (r: Result<SuperType, ()>)
        ensures
            r matches Ok(t) ==> super_type_of(w@) == Some(t),
            r is Err ==> super_type_of(w@) is None,
    {
        let l = to_ascii_lowercase(w);
        if word_is(&l, "basic") {
            Ok(SuperType::Basic)
        } else if word_is(&l, "legendary") {
            Ok(SuperType::Legendary)
        } else if word_is(&l, "ongoing") {
            Ok(SuperType::Ongoing)
        } else if word_is(&l, "snow") {
            Ok(SuperType::Snow)
        } else if word_is(&l, "world") {
            Ok(SuperType::World)
        } else {
            Err(())
        }
    }
}

impl MainType {
    /// The card type a word names, whatever its ASCII case.
    pub fn from_str(w: &[char]) -> (r: Result<MainType, ()>)
        ensures
            r matches Ok(t) ==> main_type_of(w@) == Some(t),
            r is Err ==> main_type_of(w@) is None,
    {
        let l = to_ascii_lowercase(w);
        if word_is(&l, "land") {
            Ok(MainType::Land)
        } else if word_is(&l, "phenomenon") {
            Ok(MainType::Phenomenon)
        } else if word_is(&l, "plane") {
            Ok(MainType::Plane)
        } else if word_is(&l, "scheme") {
            Ok(MainType::Scheme)
        } else if word_is(&l, "vanguard") {
            Ok(MainType::Vanguard)
        } else if word_is(&l, "creature") {
            Ok(MainType::Creature)
        } else if word_is(&l, "artifact") {
            Ok(MainType::Artifact)
        } else if word_is(&l, "enchantment") {
            Ok(MainType::Enchantment)
        } else if word_is(&l, "planeswalker") {
            Ok(MainType::PlanesWalker)
        } else if word_is(&l, "conspiracy") {
            Ok(MainType::Conspiracy)
        } else if word_is(&l, "battle") {
            Ok(MainType::Battle)
        } else if word_is(&l, "dungeon") {
            Ok(MainType::Dungeon)
        } else if word_is(&l, "instant") {
            Ok(MainType::Instant)
        } else if word_is(&l, "sorcery") {
            Ok(MainType::Sorcery)
        } else if word_is(&l, "kindred") {
            Ok(MainType::Kindred)
        } else {
            Err(())
        }
    }

    /// Whether a card of this type stays on the battlefield.
    pub fn is_permanent(&self) -> (r: bool)
        ensures
            r == !(*self == MainType::Instant || *self == MainType::Sorcery),
    {
        !matches!(self, MainType::Instant | MainType::Sorcery)
    }
}

impl TypeCatalog {
    pub open spec fn view(&self) -> Seq<Seq<char>> {
        self.names@.map_values(|v: Vec<char>| v@)
    }

    /// The subtype a word names, whatever its ASCII case.
    pub fn sub_type(&self, w: &[char]) -> (r: Result<SubType, ()>)
        ensures
            r matches Ok(t) ==> sub_type_of(self.view(), w@) == Some(t),
            r is Err ==> sub_type_of(self.view(), w@) is None,
    {
        let l = to_ascii_lowercase(w);
        let ghost names = self.view();
        let mut k: usize = 0;
        while k < self.names.len()
            invariant
                names == self.view(),
                l@ == lower_all(w@),
                k <= names.len(),
                sub_type_from(names, w@, 0) == sub_type_from(names, w@, k as int),
            decreases names.len() - k,
        {
            let n = to_ascii_lowercase(&self.names[k]);
            if eq_chars(&n, &l) {
                return Ok(SubType(k));
            }
            k = k + 1;
        }
        Err(())
    }
}

fn split_words(cs: &[char]) -> (r: Vec<Vec<char>>)
    ensures
        r@.map_values(|v: Vec<char>| v@) == split(cs@, seq![' ']),
{
    let space: Vec<char> = vec![' '];
    assert(space@ =~= seq![' ']);
    split_exec(cs, &space)
}

impl SuperTypes {
    pub open spec fn view(&self) -> Seq<SuperType> {
        self.0@
    }

    /// The supertypes among the words of `s`, in order.
    pub fn from_str(s: &str) -> (r: SuperTypes)
        ensures
            r@ == super_types_of_words(split(s@, seq![' '])),
    {
        Self::from_chars(&chars_of(s))
    }

    /// The supertypes among the words of `s`, in order.
    pub fn from_chars(s: &[char]) -> (r: SuperTypes)
        ensures
            r@ == super_types_of_words(split(s@, seq![' '])),
    {
        let ws = split_words(s);
        let ghost wv = ws@.map_values(|v: Vec<char>| v@);
        let mut r: Vec<SuperType> = Vec::new();
        for i in 0..ws.len()
            invariant
                wv == ws@.map_values(|v: Vec<char>| v@),
                r@ == super_types_of_words(wv.subrange(0, i as int)),
        {
            assert(wv.subrange(0, i + 1 as int).drop_last() =~= wv.subrange(0, i as int));
            if let Ok(t) = SuperType::from_str(&ws[i]) {
                r.push(t);
            }
        }
        assert(wv.subrange(0, ws@.len() as int) =~= wv);
        SuperTypes(r)
    }

    /// Compares two lists of supertypes as sets.
    pub fn partial_cmp(&self, other: &SuperTypes) -> (r: Option<Ordering>)
        ensures
            r == set_compare(covers(self@, other@), covers(other@, self@)),
    {
        let left = covers_super(&self.0, &other.0);
        let right = covers_super(&other.0, &self.0);
        set_compare_exec(left, right)
    }
}

impl MainTypes {
    pub open spec fn view(&self) -> Seq<MainType> {
        self.0@
    }

    /// The card types among the words of `s`, in order.
    pub fn from_str(s: &str) -> (r: MainTypes)
        ensures
            r@ == main_types_of_words(split(s@, seq![' '])),
    {
        Self::from_chars(&chars_of(s))
    }

    /// The card types among the words of `s`, in order.
    pub fn from_chars(s: &[char]) -> (r: MainTypes)
        ensures
            r@ == main_types_of_words(split(s@, seq![' '])),
    {
        let ws = split_words(s);
        let ghost wv = ws@.map_values(|v: Vec<char>| v@);
        let mut r: Vec<MainType> = Vec::new();
        for i in 0..ws.len()
            invariant
                wv == ws@.map_values(|v: Vec<char>| v@),
                r@ == main_types_of_words(wv.subrange(0, i as int)),
        {
            assert(wv.subrange(0, i + 1 as int).drop_last() =~= wv.subrange(0, i as int));
            if let Ok(t) = MainType::from_str(&ws[i]) {
                r.push(t);
            }
        }
        assert(wv.subrange(0, ws@.len() as int) =~= wv);
        MainTypes(r)
    }

    /// Compares two lists of card types as sets.
    pub fn partial_cmp(&self, other: &MainTypes) -> (r: Option<Ordering>)
        ensures
            r == set_compare(covers(self@, other@), covers(other@, self@)),
    {
        let left = covers_main(&self.0, &other.0);
        let right = covers_main(&other.0, &self.0);
        set_compare_exec(left, right)
    }
}

impl SubTypes {
    pub open spec fn view(&self) -> Seq<SubType> {
        self.0@
    }

    /// The subtypes of the catalog among the words of `s`, in order.
    pub fn from_str(s: &str, catalog: &TypeCatalog) -> (r: SubTypes)
        ensures
            r@ == sub_types_of_words(catalog.view(), split(s@, seq![' '])),
    {
        Self::from_chars(&chars_of(s), catalog)
    }

    /// The subtypes of the catalog among the words of `s`, in order.
    pub fn from_chars(s: &[char], catalog: &TypeCatalog) -> (r: SubTypes)
        ensures
            r@ == sub_types_of_words(catalog.view(), split(s@, seq![' '])),
    {
        let ws = split_words(s);
        let ghost wv = ws@.map_values(|v: Vec<char>| v@);
        let mut r: Vec<SubType> = Vec::new();
        for i in 0..ws.len()
            invariant
                wv == ws@.map_values(|v: Vec<char>| v@),
                r@ == sub_types_of_words(catalog.view(), wv.subrange(0, i as int)),
        {
            assert(wv.subrange(0, i + 1 as int).drop_last() =~= wv.subrange(0, i as int));
            if let Ok(t) = catalog.sub_type(&ws[i]) {
                r.push(t);
            }
        }
        assert(wv.subrange(0, ws@.len() as int) =~= wv);
        SubTypes(r)
    }

    /// Compares two lists of subtypes as sets.
    pub fn partial_cmp(&self, other: &SubTypes) -> (r: Option<Ordering>)
        ensures
            r == set_compare(covers(self@, other@), covers(other@, self@)),
    {
        let left = covers_sub(&self.0, &other.0);
        let right = covers_sub(&other.0, &self.0);
        set_compare_exec(left, right)
    }

    /// Whether the list holds the subtype.
    pub fn contains(&self, t: SubType) -> (r: bool)
        ensures
            r == self@.contains(t),
    {
        for i in 0..self.0.len()
            invariant
                forall|k: int| 0 <= k < i ==> self.0@[k] != t,
        {
            if self.0[i].0 == t.0 {
                return true;
            }
        }
        false
    }
}

fn covers_super(a: &Vec<SuperType>, b: &Vec<SuperType>) -> (r: bool)
    ensures
        r == covers(a@, b@),
{
    for i in 0..b.len()
        invariant
            forall|k: int| 0 <= k < i ==> a@.contains(#[trigger] b@[k]),
    {
        let mut found = false;
        for j in 0..a.len()
            invariant
                i < b@.len(),
                found == exists|m: int| 0 <= m < j && a@[m] == b@[i as int],
        {
            if a[j] == b[i] {
                found = true;
            }
        }
        if !found {
            assert(!a@.contains(b@[i as int]));
            return false;
        }
    }
    true
}

fn covers_main(a: &Vec<MainType>, b: &Vec<MainType>) -> (r: bool)
    ensures
        r == covers(a@, b@),
{
    for i in 0..b.len()
        invariant
            forall|k: int| 0 <= k < i ==> a@.contains(#[trigger] b@[k]),
    {
        let mut found = false;
        for j in 0..a.len()
            invariant
                i < b@.len(),
                found == exists|m: int| 0 <= m < j && a@[m] == b@[i as int],
        {
            if a[j] == b[i] {
                found = true;
            }
        }
        if !found {
            assert(!a@.contains(b@[i as int]));
            return false;
        }
    }
    true
}

fn covers_sub(a: &Vec<SubType>, b: &Vec<SubType>) -> (r: bool)
    ensures
        r == covers(a@, b@),
{
    for i in 0..b.len()
        invariant
            forall|k: int| 0 <= k < i ==> a@.contains(#[trigger] b@[k]),
    {
        let mut found = false;
        for j in 0..a.len()
            invariant
                i < b@.len(),
                found == exists|m: int| 0 <= m < j && a@[m] == b@[i as int],
        {
            if a[j].0 == b[i].0 {
                found = true;
            }
        }
        if !found {
            assert(!a@.contains(b@[i as int]));
            return false;
        }
    }
    true
}

impl Types {
    /// The three parts of the type line.
    pub open spec fn view(&self) -> (Seq<SuperType>, Seq<MainType>, Seq<SubType>) {
        (self.super_type@, self.main_type@, self.sub_type@)
    }

    pub open spec fn spec_len(&self) -> nat {
        self.super_type@.len() + self.main_type@.len() + self.sub_type@.len()
    }

    /// Reads a type line word by word: each word goes to the first part that
    /// knows it, supertypes first; unknown words are skipped.
    pub fn from_str(s: &str, catalog: &TypeCatalog) -> (r: Types)
        ensures
            r@ == types_of_words(catalog.view(), split(s@, seq![' '])),
    {
        Self::from_chars(&chars_of(s), catalog)
    }

    /// Reads a type line word by word, as `from_str` does.
    pub fn from_chars(s: &[char], catalog: &TypeCatalog) -> (r: Types)
        ensures
            r@ == types_of_words(catalog.view(), split(s@, seq![' '])),
    {
        let ws = split_words(s);
        let ghost wv = ws@.map_values(|v: Vec<char>| v@);
        let mut a: Vec<SuperType> = Vec::new();
        let mut b: Vec<MainType> = Vec::new();
        let mut c: Vec<SubType> = Vec::new();
        for i in 0..ws.len()
            invariant
                wv == ws@.map_values(|v: Vec<char>| v@),
                (a@, b@, c@) == types_of_words(catalog.view(), wv.subrange(0, i as int)),
        {
            assert(wv.subrange(0, i + 1 as int).drop_last() =~= wv.subrange(0, i as int));
            if let Ok(t) = SuperType::from_str(&ws[i]) {
                a.push(t);
            } else if let Ok(t) = MainType::from_str(&ws[i]) {
                b.push(t);
            } else if let Ok(t) = catalog.sub_type(&ws[i]) {
                c.push(t);
            }
        }
        assert(wv.subrange(0, ws@.len() as int) =~= wv);
        Types { super_type: SuperTypes(a), main_type: MainTypes(b), sub_type: SubTypes(c) }
    }

    /// How many types the line names.
    pub fn len(&self) -> (r: usize)
        requires
            self.spec_len() <= usize::MAX,
        ensures
            r == self.spec_len(),
    {
        self.super_type.0.len() + self.main_type.0.len() + self.sub_type.0.len()
    }

    pub fn is_empty(&self) -> (r: bool)
        ensures
            r == (self.spec_len() == 0),
    {
        self.super_type.0.len() == 0 && self.main_type.0.len() == 0 && self.sub_type.0.len() == 0
    }

    /// Whether the first card type of the line stays on the battlefield.
    pub fn is_permanent(&self) -> (r: bool)
        ensures
            r == (self.main_type@.len() > 0 && !(self.main_type@[0] == MainType::Instant
                || self.main_type@[0] == MainType::Sorcery)),
    {
        if self.main_type.0.len() > 0 {
            self.main_type.0[0].is_permanent()
        } else {
            false
        }
    }

    /// Compares two type lines part by part as sets: greater when this one
    /// holds every type of the other.
    pub fn partial_cmp(&self, other: &Types) -> (r: Option<Ordering>)
        ensures
            r == set_compare(
                covers(self.super_type@, other.super_type@) && covers(
                    self.main_type@,
                    other.main_type@,
                ) && covers(self.sub_type@, other.sub_type@),
                covers(other.super_type@, self.super_type@) && covers(
                    other.main_type@,
                    self.main_type@,
                ) && covers(other.sub_type@, self.sub_type@),
            ),
    {
        let left = covers_super(&self.super_type.0, &other.super_type.0) && covers_main(
            &self.main_type.0,
            &other.main_type.0,
        ) && covers_sub(&self.sub_type.0, &other.sub_type.0);
        let right = covers_super(&other.super_type.0, &self.super_type.0) && covers_main(
            &other.main_type.0,
            &self.main_type.0,
        ) && covers_sub(&other.sub_type.0, &self.sub_type.0);
        set_compare_exec(left, right)
    }
}

/// The name the rules give a supertype.
pub open spec fn super_type_name(t: SuperType) -> Seq<char> {
    match t {
        SuperType::Basic => "Basic"@,
        SuperType::Legendary => "Legendary"@,
        SuperType::Ongoing => "Ongoing"@,
        SuperType::Snow => "Snow"@,
        SuperType::World => "World"@,
    }
}

/// The name the rules give a card type.
pub open spec fn main_type_name(t: MainType) -> Seq<char> {
    match t {
        MainType::Land => "Land"@,
        MainType::Phenomenon => "Phenomenon"@,
        MainType::Plane => "Plane"@,
        MainType::Scheme => "Scheme"@,
        MainType::Vanguard => "Vanguard"@,
        MainType::Creature => "Creature"@,
        MainType::Artifact => "Artifact"@,
        MainType::Enchantment => "Enchantment"@,
        MainType::PlanesWalker => "PlanesWalker"@,
        MainType::Conspiracy => "Conspiracy"@,
        MainType::Battle => "Battle"@,
        MainType::Dungeon => "Dungeon"@,
        MainType::Instant => "Instant"@,
        MainType::Sorcery => "Sorcery"@,
        MainType::Kindred => "Kindred"@,
    }
}

impl SuperType {
    /// The name the rules give it.
    pub fn to_string(&self) -> (r: String)
        ensures
            r@ == super_type_name(*self),
    {
        match self {
            SuperType::Basic => "Basic".to_owned(),
            SuperType::Legendary => "Legendary".to_owned(),
            SuperType::Ongoing => "Ongoing".to_owned(),
            SuperType::Snow => "Snow".to_owned(),
            SuperType::World => "World".to_owned(),
        }
    }
}

impl MainType {
    /// The name the rules give it.
    pub fn to_string(&self) -> (r: String)
        ensures
            r@ == main_type_name(*self),
    {
        match self {
            MainType::Land => "Land".to_owned(),
            MainType::Phenomenon => "Phenomenon".to_owned(),
            MainType::Plane => "Plane".to_owned(),
            MainType::Scheme => "Scheme".to_owned(),
            MainType::Vanguard => "Vanguard".to_owned(),
            MainType::Creature => "Creature".to_owned(),
            MainType::Artifact => "Artifact".to_owned(),
            MainType::Enchantment => "Enchantment".to_owned(),
            MainType::PlanesWalker => "PlanesWalker".to_owned(),
            MainType::Conspiracy => "Conspiracy".to_owned(),
            MainType::Battle => "Battle".to_owned(),
            MainType::Dungeon => "Dungeon".to_owned(),
            MainType::Instant => "Instant".to_owned(),
            MainType::Sorcery => "Sorcery".to_owned(),
            MainType::Kindred => "Kindred".to_owned(),
        }
    }
}

impl SubType {
    /// The name the rules give the subtype, as the catalog spells it.
    pub fn to_string(&self, catalog: &TypeCatalog) -> (r: String)
        requires
            self.0 < catalog.view().len(),
        ensures
            r@ == catalog.view()[self.0 as int],
    {
        crate::text::string_of(&catalog.names[self.0])
    }
}

/// Reading the name of a supertype or card type gives it back, and reading
/// a word does not depend on its ASCII case.
pub proof fn law_type_names(s: SuperType, m: MainType, w: Seq<char>, v: Seq<char>)
    ensures
        super_type_of(super_type_name(s)) == Some(s),
        main_type_of(main_type_name(m)) == Some(m),
        lower_all(w) == lower_all(v) ==> super_type_of(w) == super_type_of(v) && main_type_of(w)
            == main_type_of(v),
{
    reveal_strlit("basic");
    reveal_strlit("legendary");
    reveal_strlit("ongoing");
    reveal_strlit("snow");
    reveal_strlit("world");
    reveal_strlit("land");
    reveal_strlit("phenomenon");
    reveal_strlit("plane");
    reveal_strlit("scheme");
    reveal_strlit("vanguard");
    reveal_strlit("creature");
    reveal_strlit("artifact");
    reveal_strlit("enchantment");
    reveal_strlit("planeswalker");
    reveal_strlit("conspiracy");
    reveal_strlit("battle");
    reveal_strlit("dungeon");
    reveal_strlit("instant");
    reveal_strlit("sorcery");
    reveal_strlit("kindred");
    assert("basic"@[0] != "world"@[0]);
    assert("phenomenon"@[0] != "conspiracy"@[0]);
    assert("scheme"@[0] != "battle"@[0]);
    assert("vanguard"@[0] != "creature"@[0] && "vanguard"@[0] != "artifact"@[0] && "creature"@[0]
        != "artifact"@[0]);
    assert("dungeon"@[0] != "instant"@[0] && "dungeon"@[0] != "sorcery"@[0] && "dungeon"@[0]
        != "kindred"@[0] && "instant"@[0] != "sorcery"@[0] && "instant"@[0] != "kindred"@[0]
        && "sorcery"@[0] != "kindred"@[0]);
    match s {
        SuperType::Basic => {
            reveal_strlit("Basic");
            reveal_strlit("basic");
            assert(lower_all("Basic"@) =~= "basic"@);
        },
        SuperType::Legendary => {
            reveal_strlit("Legendary");
            reveal_strlit("legendary");
            assert(lower_all("Legendary"@) =~= "legendary"@);
        },
        SuperType::Ongoing => {
            reveal_strlit("Ongoing");
            reveal_strlit("ongoing");
            assert(lower_all("Ongoing"@) =~= "ongoing"@);
        },
        SuperType::Snow => {
            reveal_strlit("Snow");
            reveal_strlit("snow");
            assert(lower_all("Snow"@) =~= "snow"@);
        },
        SuperType::World => {
            reveal_strlit("World");
            reveal_strlit("world");
            assert(lower_all("World"@) =~= "world"@);
        },
    }
    match m {
        MainType::Land => {
            reveal_strlit("Land");
            reveal_strlit("land");
            assert(lower_all("Land"@) =~= "land"@);
        },
        MainType::Phenomenon => {
            reveal_strlit("Phenomenon");
            reveal_strlit("phenomenon");
            assert(lower_all("Phenomenon"@) =~= "phenomenon"@);
        },
        MainType::Plane => {
            reveal_strlit("Plane");
            reveal_strlit("plane");
            assert(lower_all("Plane"@) =~= "plane"@);
        },
        MainType::Scheme => {
            reveal_strlit("Scheme");
            reveal_strlit("scheme");
            assert(lower_all("Scheme"@) =~= "scheme"@);
        },
        MainType::Vanguard => {
            reveal_strlit("Vanguard");
            reveal_strlit("vanguard");
            assert(lower_all("Vanguard"@) =~= "vanguard"@);
        },
        MainType::Creature => {
            reveal_strlit("Creature");
            reveal_strlit("creature");
            assert(lower_all("Creature"@) =~= "creature"@);
        },
        MainType::Artifact => {
            reveal_strlit("Artifact");
            reveal_strlit("artifact");
            assert(lower_all("Artifact"@) =~= "artifact"@);
        },
        MainType::Enchantment => {
            reveal_strlit("Enchantment");
            reveal_strlit("enchantment");
            assert(lower_all("Enchantment"@) =~= "enchantment"@);
        },
        MainType::PlanesWalker => {
            reveal_strlit("PlanesWalker");
            reveal_strlit("planeswalker");
            assert(lower_all("PlanesWalker"@) =~= "planeswalker"@);
        },
        MainType::Conspiracy => {
            reveal_strlit("Conspiracy");
            reveal_strlit("conspiracy");
            assert(lower_all("Conspiracy"@) =~= "conspiracy"@);
        },
        MainType::Battle => {
            reveal_strlit("Battle");
            reveal_strlit("battle");
            assert(lower_all("Battle"@) =~= "battle"@);
        },
        MainType::Dungeon => {
            reveal_strlit("Dungeon");
            reveal_strlit("dungeon");
            assert(lower_all("Dungeon"@) =~= "dungeon"@);
        },
        MainType::Instant => {
            reveal_strlit("Instant");
            reveal_strlit("instant");
            assert(lower_all("Instant"@) =~= "instant"@);
        },
        MainType::Sorcery => {
            reveal_strlit("Sorcery");
            reveal_strlit("sorcery");
            assert(lower_all("Sorcery"@) =~= "sorcery"@);
        },
        MainType::Kindred => {
            reveal_strlit("Kindred");
            reveal_strlit("kindred");
            assert(lower_all("Kindred"@) =~= "kindred"@);
        },
    }
}

/// Whether no two names of the catalog are the same word whatever their
/// ASCII case.
pub open spec fn names_distinct(names: Seq<Seq<char>>) -> bool {
    forall|i: int, j: int|
        0 <= i < j < names.len() ==> lower_all(#[trigger] names[i]) != lower_all(#[trigger] names[j])
}

proof fn lemma_first_from(names: Seq<Seq<char>>, w: Seq<char>, j: int, k: int)
    requires
        0 <= j <= k < names.len(),
        lower_all(names[k]) == lower_all(w),
        forall|i: int| j <= i < k ==> lower_all(#[trigger] names[i]) != lower_all(w),
    ensures
        sub_type_from(names, w, j) == Some(k),
    decreases k - j,
{
    if j < k {
        lemma_first_from(names, w, j + 1, k);
    }
}

/// When the catalog's names are distinct whatever their case, reading the
/// name of a subtype, in any ASCII case, gives it back.
pub proof fn law_sub_type_names(names: Seq<Seq<char>>, k: int, w: Seq<char>)
    requires
        names_distinct(names),
        0 <= k < names.len(),
        lower_all(w) == lower_all(names[k]),
    ensures
        sub_type_of(names, w) == Some(SubType(k as usize)),
{
    assert forall|i: int| 0 <= i < k implies lower_all(#[trigger] names[i]) != lower_all(w) by {
        assert(lower_all(names[i]) != lower_all(names[k]));
    }
    lemma_first_from(names, w, 0, k);
}

} // verus!
