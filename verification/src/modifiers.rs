use vstd::prelude::*;

verus! {

/// A modifier key, whatever side of the keyboard it sits on.
#[derive(Debug, Clone, Copy, PartialEq, Eq, Hash, Structural)]
pub enum Modifier {
    Ctrl,
    Shift,
    Alt,
    Super,
}

/// The flag bit that stands for a modifier.
pub open spec fn flag(m: Modifier) -> u8 {
    match m {
        Modifier::Ctrl => 1,
        Modifier::Shift => 2,
        Modifier::Alt => 4,
        Modifier::Super => 8,
    }
}

/// Whether the flag of `m` is set in `bits`.
pub open spec fn has_flag(bits: u8, m: Modifier) -> bool {
    bits & flag(m) != 0
}

proof fn lemma_empty_bits()
    ensures
        forall|m: Modifier| !has_flag(0, m),
{
    assert(0u8 & 1u8 == 0u8 && 0u8 & 2u8 == 0u8 && 0u8 & 4u8 == 0u8 && 0u8 & 8u8 == 0u8)
        by (bit_vector);
}

proof fn lemma_union_bits(a: u8, b: u8)
    ensures
        forall|m: Modifier| has_flag(a | b, m) == (has_flag(a, m) || has_flag(b, m)),
        a < 16 && b < 16 ==> (a | b) < 16,
{
    assert(((a | b) & 1u8 != 0) == ((a & 1u8 != 0) || (b & 1u8 != 0))) by (bit_vector);
    assert(((a | b) & 2u8 != 0) == ((a & 2u8 != 0) || (b & 2u8 != 0))) by (bit_vector);
    assert(((a | b) & 4u8 != 0) == ((a & 4u8 != 0) || (b & 4u8 != 0))) by (bit_vector);
    assert(((a | b) & 8u8 != 0) == ((a & 8u8 != 0) || (b & 8u8 != 0))) by (bit_vector);
    assert(a < 16 && b < 16 ==> (a | b) < 16) by (bit_vector);
}

proof fn lemma_difference_bits(a: u8, b: u8)
    ensures
        forall|m: Modifier| has_flag(a & !b, m) == (has_flag(a, m) && !has_flag(b, m)),
        a < 16 ==> (a & !b) < 16,
{
    assert(((a & !b) & 1u8 != 0) == ((a & 1u8 != 0) && !(b & 1u8 != 0))) by (bit_vector);
    assert(((a & !b) & 2u8 != 0) == ((a & 2u8 != 0) && !(b & 2u8 != 0))) by (bit_vector);
    assert(((a & !b) & 4u8 != 0) == ((a & 4u8 != 0) && !(b & 4u8 != 0))) by (bit_vector);
    assert(((a & !b) & 8u8 != 0) == ((a & 8u8 != 0) && !(b & 8u8 != 0))) by (bit_vector);
    assert(a < 16 ==> (a & !b) < 16) by (bit_vector);
}

proof fn lemma_flag_bits()
    ensures
        forall|m: Modifier, n: Modifier| has_flag(flag(m), n) == (m == n),
        forall|m: Modifier| flag(m) < 16,
{
    assert(1u8 & 1u8 != 0 && 1u8 & 2u8 == 0 && 1u8 & 4u8 == 0 && 1u8 & 8u8 == 0) by (bit_vector);
    assert(2u8 & 1u8 == 0 && 2u8 & 2u8 != 0 && 2u8 & 4u8 == 0 && 2u8 & 8u8 == 0) by (bit_vector);
    assert(4u8 & 1u8 == 0 && 4u8 & 2u8 == 0 && 4u8 & 4u8 != 0 && 4u8 & 8u8 == 0) by (bit_vector);
    assert(8u8 & 1u8 == 0 && 8u8 & 2u8 == 0 && 8u8 & 4u8 == 0 && 8u8 & 8u8 != 0) by (bit_vector);
}

/// Two values of the four modifier bits that hold the same flags are equal.
proof fn lemma_bits_ext(a: u8, b: u8)
    requires
        a < 16,
        b < 16,
        forall|m: Modifier| has_flag(a, m) == has_flag(b, m),
    ensures
        a == b,
{
    assert(has_flag(a, Modifier::Ctrl) == has_flag(b, Modifier::Ctrl));
    assert(has_flag(a, Modifier::Shift) == has_flag(b, Modifier::Shift));
    assert(has_flag(a, Modifier::Alt) == has_flag(b, Modifier::Alt));
    assert(has_flag(a, Modifier::Super) == has_flag(b, Modifier::Super));
    assert(a == b) by (bit_vector)
        requires
            a < 16,
            b < 16,
            (a & 1u8 != 0) == (b & 1u8 != 0),
            (a & 2u8 != 0) == (b & 2u8 != 0),
            (a & 4u8 != 0) == (b & 4u8 != 0),
            (a & 8u8 != 0) == (b & 8u8 != 0),
    ;
}

/// `b` holds every flag of `a` exactly when `b & a == a`.
proof fn lemma_subset_bits(a: u8, b: u8)
    requires
        a < 16,
    ensures
        ((b & a) == a) == (forall|m: Modifier| has_flag(a, m) ==> has_flag(b, m)),
{
    assert(((b & a) == a) == (((a & 1u8 != 0) ==> (b & 1u8 != 0)) && ((a & 2u8 != 0) ==> (b
        & 2u8 != 0)) && ((a & 4u8 != 0) ==> (b & 4u8 != 0)) && ((a & 8u8 != 0) ==> (b & 8u8
        != 0)))) by (bit_vector)
        requires
            a < 16,
    ;
    if forall|m: Modifier| has_flag(a, m) ==> has_flag(b, m) {
        assert(has_flag(a, Modifier::Ctrl) ==> has_flag(b, Modifier::Ctrl));
        assert(has_flag(a, Modifier::Shift) ==> has_flag(b, Modifier::Shift));
        assert(has_flag(a, Modifier::Alt) ==> has_flag(b, Modifier::Alt));
        assert(has_flag(a, Modifier::Super) ==> has_flag(b, Modifier::Super));
    }
}

/// The flag bits of the modifiers of `ms`, or-ed together from the first to the last.
pub open spec fn flags_of(ms: Seq<Modifier>) -> u8
    decreases ms.len(),
{
    if ms.len() == 0 {
        0
    } else {
        flags_of(ms.drop_last()) | flag(ms.last())
    }
}

proof fn lemma_flags_of(ms: Seq<Modifier>)
    ensures
        flags_of(ms) < 16,
        forall|m: Modifier| has_flag(flags_of(ms), m) == ms.contains(m),
    decreases ms.len(),
{
    if ms.len() == 0 {
        lemma_empty_bits();
    } else {
        lemma_flags_of(ms.drop_last());
        lemma_flag_bits();
        lemma_union_bits(flags_of(ms.drop_last()), flag(ms.last()));
        assert forall|m: Modifier| has_flag(flags_of(ms), m) == ms.contains(m) by {
            if ms.contains(m) && m != ms.last() {
                let i = choose|i: int| 0 <= i < ms.len() && ms[i] == m;
                assert(ms.drop_last()[i] == m);
            }
            if ms.drop_last().contains(m) {
                let i = choose|i: int| 0 <= i < ms.drop_last().len() && ms.drop_last()[i] == m;
                assert(ms[i] == m);
            }
            if m == ms.last() {
                assert(ms[ms.len() - 1] == m);
            }
        }
    }
}

/// `m` alone where `held` holds it, else nothing.
pub open spec fn if_held(held: Set<Modifier>, m: Modifier) -> Seq<Modifier> {
    if held.contains(m) {
        seq![m]
    } else {
        seq![]
    }
}

/// The modifiers of `held`, each once, in the order Ctrl, Shift, Alt, Super.
pub open spec fn listed(held: Set<Modifier>) -> Seq<Modifier> {
    if_held(held, Modifier::Ctrl) + if_held(held, Modifier::Shift) + if_held(held, Modifier::Alt)
        + if_held(held, Modifier::Super)
}

/// The name of a modifier: that of its variant.
pub open spec fn modifier_name(m: Modifier) -> Seq<char> {
    match m {
        Modifier::Ctrl => seq!['C', 't', 'r', 'l'],
        Modifier::Shift => seq!['S', 'h', 'i', 'f', 't'],
        Modifier::Alt => seq!['A', 'l', 't'],
        Modifier::Super => seq!['S', 'u', 'p', 'e', 'r'],
    }
}

/// The names of `ms`, joined by `+`.
pub open spec fn joined_names(ms: Seq<Modifier>) -> Seq<char>
    decreases ms.len(),
{
    if ms.len() == 0 {
        seq![]
    } else if ms.len() == 1 {
        modifier_name(ms[0])
    } else {
        joined_names(ms.drop_last()) + seq!['+'] + modifier_name(ms.last())
    }
}

/// The text of a set of modifiers: the names of those held, in the order Ctrl,
/// Shift, Alt, Super, joined by `+`.
pub open spec fn modifier_text(held: Set<Modifier>) -> Seq<char> {
    joined_names(listed(held))
}

/// A letter that only the name of `m` holds: C for Ctrl, h for Shift, A for Alt
/// and p for Super.
pub open spec fn name_marker(m: Modifier) -> char {
    match m {
        Modifier::Ctrl => 'C',
        Modifier::Shift => 'h',
        Modifier::Alt => 'A',
        Modifier::Super => 'p',
    }
}

proof fn lemma_name_letters(n: Modifier, i: int)
    requires
        0 <= i < modifier_name(n).len(),
    ensures
        match n {
            Modifier::Ctrl => modifier_name(n)[i] == 'C' || modifier_name(n)[i] == 't'
                || modifier_name(n)[i] == 'r' || modifier_name(n)[i] == 'l',
            Modifier::Shift => modifier_name(n)[i] == 'S' || modifier_name(n)[i] == 'h'
                || modifier_name(n)[i] == 'i' || modifier_name(n)[i] == 'f' || modifier_name(
                n,
            )[i] == 't',
            Modifier::Alt => modifier_name(n)[i] == 'A' || modifier_name(n)[i] == 'l'
                || modifier_name(n)[i] == 't',
            Modifier::Super => modifier_name(n)[i] == 'S' || modifier_name(n)[i] == 'u'
                || modifier_name(n)[i] == 'p' || modifier_name(n)[i] == 'e' || modifier_name(
                n,
            )[i] == 'r',
        },
{
    if i == 0 {
    } else if i == 1 {
    } else if i == 2 {
    } else if i == 3 {
    } else {
    }
}

proof fn lemma_name_markers(m: Modifier, n: Modifier)
    ensures
        modifier_name(n).contains(name_marker(m)) <==> m == n,
        !modifier_name(n).contains('+'),
{
    if modifier_name(n).contains(name_marker(m)) {
        let i = choose|i: int| 0 <= i < modifier_name(n).len() && modifier_name(n)[i] == name_marker(m);
        lemma_name_letters(n, i);
    }
    if modifier_name(n).contains('+') {
        let i = choose|i: int| 0 <= i < modifier_name(n).len() && modifier_name(n)[i] == '+';
        lemma_name_letters(n, i);
    }
    if m == n {
        match m {
            Modifier::Ctrl => assert(modifier_name(n)[0] == 'C'),
            Modifier::Shift => assert(modifier_name(n)[1] == 'h'),
            Modifier::Alt => assert(modifier_name(n)[0] == 'A'),
            Modifier::Super => assert(modifier_name(n)[2] == 'p'),
        }
    }
}

proof fn lemma_concat_contains(a: Seq<char>, b: Seq<char>, c: char)
    ensures
        (a + b).contains(c) <==> a.contains(c) || b.contains(c),
{
    if (a + b).contains(c) {
        let i = choose|i: int| 0 <= i < (a + b).len() && (a + b)[i] == c;
        if i < a.len() {
            assert(a[i] == c);
        } else {
            assert(b[i - a.len()] == c);
        }
    }
    if a.contains(c) {
        let i = choose|i: int| 0 <= i < a.len() && a[i] == c;
        assert((a + b)[i] == c);
    }
    if b.contains(c) {
        let i = choose|i: int| 0 <= i < b.len() && b[i] == c;
        assert((a + b)[a.len() + i] == c);
    }
}

proof fn lemma_joined_names_contains(ms: Seq<Modifier>, m: Modifier)
    ensures
        joined_names(ms).contains(name_marker(m)) <==> ms.contains(m),
    decreases ms.len(),
{
    let c = name_marker(m);
    if ms.len() == 0 {
    } else if ms.len() == 1 {
        lemma_name_markers(m, ms[0]);
        if ms.contains(m) {
            let i = choose|i: int| 0 <= i < ms.len() && ms[i] == m;
            assert(i == 0);
        }
    } else {
        let init = ms.drop_last();
        lemma_joined_names_contains(init, m);
        lemma_name_markers(m, ms.last());
        lemma_concat_contains(joined_names(init) + seq!['+'], modifier_name(ms.last()), c);
        lemma_concat_contains(joined_names(init), seq!['+'], c);
        assert(!seq!['+'].contains(c)) by {
            if seq!['+'].contains(c) {
                let i = choose|i: int| 0 <= i < 1 && seq!['+'][i] == c;
                assert(seq!['+'][0] == '+');
            }
        }
        if ms.contains(m) {
            let i = choose|i: int| 0 <= i < ms.len() && ms[i] == m;
            if i < ms.len() - 1 {
                assert(init[i] == m);
            }
        }
        if init.contains(m) {
            let i = choose|i: int| 0 <= i < init.len() && init[i] == m;
            assert(ms[i] == m);
        }
        if m == ms.last() {
            assert(ms[ms.len() - 1] == m);
        }
    }
}

/// The text of a set of modifiers names every modifier held, Super as much as the
/// others, and none that is not held.
pub proof fn law_modifier_text_names_each_held(held: Set<Modifier>, m: Modifier)
    ensures
        modifier_text(held).contains(name_marker(m)) <==> held.contains(m),
{
    lemma_joined_names_contains(listed(held), m);
    law_listed_collects_back(held);
    assert(listed(held).to_set().contains(m) == listed(held).contains(m));
}

/// Different sets of modifiers read differently.
pub proof fn law_modifier_text_determines_set(a: Set<Modifier>, b: Set<Modifier>)
    requires
        modifier_text(a) == modifier_text(b),
    ensures
        a == b,
{
    assert forall|m: Modifier| a.contains(m) == b.contains(m) by {
        law_modifier_text_names_each_held(a, m);
        law_modifier_text_names_each_held(b, m);
    }
    assert(a =~= b);
}

impl Modifier {
    /// The name of the modifier, as its `Debug` form gives it.
    pub fn to_string(&self) -> (r: String)
        ensures
            r@ == modifier_name(*self),
    {
        match self {
            Modifier::Ctrl => {
                let r = String::from_str("Ctrl");
                proof {
                    reveal_strlit("Ctrl");
                }
                r
            },
            Modifier::Shift => {
                let r = String::from_str("Shift");
                proof {
                    reveal_strlit("Shift");
                }
                r
            },
            Modifier::Alt => {
                let r = String::from_str("Alt");
                proof {
                    reveal_strlit("Alt");
                }
                r
            },
            Modifier::Super => {
                let r = String::from_str("Super");
                proof {
                    reveal_strlit("Super");
                }
                r
            },
        }
    }
}

fn flag_of(m: Modifier) -> (r: u8)
    ensures
        r == flag(m),
{
    match m {
        Modifier::Ctrl => 1,
        Modifier::Shift => 2,
        Modifier::Alt => 4,
        Modifier::Super => 8,
    }
}

/// A set of modifiers, held as flag bits.
#[derive(Debug, Clone, Copy, PartialEq, Eq, Hash, Structural)]
pub struct ModifierState {
    bits: u8,
}

impl ModifierState {
    /// Only the four modifier bits are ever set.
    #[verifier::type_invariant]
    pub closed spec fn wf(self) -> bool {
        self.bits < 16
    }

    /// The flag of Ctrl alone.
    #[allow(non_snake_case)]
    pub fn CTRL() -> (r: Self)
        ensures
            r@ == set![Modifier::Ctrl],
            r.spec_bits() == 1,
    {
        ModifierState::from(Modifier::Ctrl)
    }

    /// The flag of Shift alone.
    #[allow(non_snake_case)]
    pub fn SHIFT() -> (r: Self)
        ensures
            r@ == set![Modifier::Shift],
            r.spec_bits() == 2,
    {
        ModifierState::from(Modifier::Shift)
    }

    /// The flag of Alt alone.
    #[allow(non_snake_case)]
    pub fn ALT() -> (r: Self)
        ensures
            r@ == set![Modifier::Alt],
            r.spec_bits() == 4,
    {
        ModifierState::from(Modifier::Alt)
    }

    /// The flag of Super alone.
    #[allow(non_snake_case)]
    pub fn SUPER() -> (r: Self)
        ensures
            r@ == set![Modifier::Super],
            r.spec_bits() == 8,
    {
        ModifierState::from(Modifier::Super)
    }

    /// The flag bits: 1 for Ctrl, 2 for Shift, 4 for Alt and 8 for Super.
    pub closed spec fn spec_bits(self) -> u8 {
        self.bits
    }

    /// The flag bits: 1 for Ctrl, 2 for Shift, 4 for Alt and 8 for Super.
    pub fn bits(&self) -> (r: u8)
        ensures
            r == self.spec_bits(),
            r < 16,
            forall|m: Modifier| has_flag(r, m) == self@.contains(m),
    {
        proof {
            use_type_invariant(self);
        }
        self.bits
    }

    /// The state with the flag bits `bits`; `None` where a bit stands for no modifier.
    pub fn from_bits(bits: u8) -> (r: Option<ModifierState>)
        ensures
            bits < 16 <==> r is Some,
            r matches Some(s) ==> s.spec_bits() == bits,
            r matches Some(s) ==> s@ == Set::new(|m: Modifier| has_flag(bits, m)),
    {
        if bits < 16 {
            Some(ModifierState { bits })
        } else {
            None
        }
    }

    /// All four modifiers.
    pub fn all() -> (r: Self)
        ensures
            r@ == Set::<Modifier>::full(),
            r.spec_bits() == 15,
    {
        assert(15u8 & 1u8 != 0 && 15u8 & 2u8 != 0 && 15u8 & 4u8 != 0 && 15u8 & 8u8 != 0)
            by (bit_vector);
        let r = ModifierState { bits: 15 };
        assert(r@ =~= Set::<Modifier>::full());
        r
    }

    /// Whether no modifier is held.
    pub fn is_empty(&self) -> (r: bool)
        ensures
            r == (self@ == Set::<Modifier>::empty()),
    {
        proof {
            use_type_invariant(self);
            lemma_empty_bits();
            if self@ == Set::<Modifier>::empty() {
                assert forall|m: Modifier| has_flag(self.bits, m) == has_flag(0, m) by {
                    assert(!self@.contains(m));
                }
                lemma_bits_ext(self.bits, 0);
            }
            if self.bits == 0 {
                assert(self@ =~= Set::<Modifier>::empty());
            }
        }
        self.bits == 0
    }

    /// The empty set of modifiers.
    pub fn empty() -> (r: Self)
        ensures
            r@ == Set::<Modifier>::empty(),
    {
        proof {
            lemma_empty_bits();
        }
        let r = ModifierState { bits: 0 };
        assert(r@ =~= Set::<Modifier>::empty());
        r
    }

    /// Whether every modifier of `other` is held here.
    pub fn contains(&self, other: ModifierState) -> (r: bool)
        ensures
            r == other@.subset_of(self@),
    {
        proof {
            use_type_invariant(&other);
            lemma_subset_bits(other.bits, self.bits);
        }
        let r = (self.bits & other.bits) == other.bits;
        assert(r == other@.subset_of(self@)) by {
            if r {
                assert forall|m: Modifier| other@.contains(m) implies self@.contains(m) by {
                    assert(has_flag(other.bits, m) ==> has_flag(self.bits, m));
                }
            }
            if other@.subset_of(self@) {
                assert forall|m: Modifier| has_flag(other.bits, m) implies has_flag(
                    self.bits,
                    m,
                ) by {
                    assert(other@.contains(m));
                }
            }
        }
        r
    }

    /// The modifiers held here or in `other`.
    pub fn union(self, other: ModifierState) -> (r: ModifierState)
        ensures
            r@ == self@.union(other@),
    {
        proof {
            use_type_invariant(&self);
            use_type_invariant(&other);
            lemma_union_bits(self.bits, other.bits);
        }
        let r = ModifierState { bits: self.bits | other.bits };
        assert(r@ =~= self@.union(other@));
        r
    }

    /// Adds the modifiers of `other`.
    pub fn insert(&mut self, other: ModifierState)
        ensures
            final(self)@ == old(self)@.union(other@),
    {
        *self = self.union(other);
    }

    /// Drops the modifiers of `other`.
    pub fn remove(&mut self, other: ModifierState)
        ensures
            final(self)@ == old(self)@.difference(other@),
    {
        proof {
            use_type_invariant(&*self);
            lemma_difference_bits(self.bits, other.bits);
        }
        let r = ModifierState { bits: self.bits & !other.bits };
        assert(r@ =~= old(self)@.difference(other@));
        *self = r;
    }

    /// The modifiers held, each once, in the order Ctrl, Shift, Alt, Super.
    pub fn to_modifiers(&self) -> (r: Vec<Modifier>)
        ensures
            r@ == listed(self@),
    {
        let mut r: Vec<Modifier> = Vec::new();
        if self.bits & 1 != 0 {
            r.push(Modifier::Ctrl);
        }
        if self.bits & 2 != 0 {
            r.push(Modifier::Shift);
        }
        if self.bits & 4 != 0 {
            r.push(Modifier::Alt);
        }
        if self.bits & 8 != 0 {
            r.push(Modifier::Super);
        }
        assert(r@ =~= listed(self@));
        r
    }

    /// The names of the modifiers held, in the order Ctrl, Shift, Alt, Super,
    /// joined by `+`: the text that `Display` gives.
    pub fn to_string(&self) -> (r: String)
        ensures
            r@ == modifier_text(self@),
    {
        let ms = self.to_modifiers();
        let mut r = String::new();
        let mut i: usize = 0;
        while i < ms.len()
            invariant
                i <= ms@.len(),
                r@ == joined_names(ms@.take(i as int)),
            decreases ms@.len() - i,
        {
            assert(ms@.take(i + 1).drop_last() =~= ms@.take(i as int));
            if i > 0 {
                r.append("+");
                proof {
                    reveal_strlit("+");
                }
            }
            let name = ms[i].to_string();
            r.append(name.as_str());
            i = i + 1;
            assert(r@ =~= joined_names(ms@.take(i as int)));
        }
        assert(ms@.take(ms@.len() as int) =~= ms@);
        r
    }
}

/// The state that holds the modifiers of `ms`: what `ModifierState::from` makes of
/// a list.
pub closed spec fn state_of(ms: Seq<Modifier>) -> ModifierState {
    ModifierState { bits: flags_of(ms) }
}

/// The state of a list is valid and holds exactly the modifiers of the list.
pub proof fn lemma_state_of(ms: Seq<Modifier>)
    ensures
        state_of(ms).wf(),
        state_of(ms)@ == ms.to_set(),
{
    lemma_flags_of(ms);
    assert(state_of(ms)@ =~= ms.to_set());
}

/// Lists that name the same modifiers, in whatever order and however often, give
/// the same state.
pub proof fn law_state_of_ignores_order(a: Seq<Modifier>, b: Seq<Modifier>)
    requires
        a.to_set() == b.to_set(),
    ensures
        state_of(a) == state_of(b),
{
    lemma_state_of(a);
    lemma_state_of(b);
    law_state_determined_by_modifiers(state_of(a), state_of(b));
}

impl From<Modifier> for ModifierState {
    /// The set that holds `value` alone.
    fn from(value: Modifier) -> (r: ModifierState)
        ensures
            r@ == set![value],
    {
        proof {
            lemma_flag_bits();
        }
        let bits = flag_of(value);
        let r = ModifierState { bits };
        assert(r@ =~= set![value]);
        r
    }
}

impl vstd::std_specs::convert::FromSpecImpl<Modifier> for ModifierState {
    open spec fn obeys_from_spec() -> bool {
        true
    }

    closed spec fn from_spec(v: Modifier) -> ModifierState {
        ModifierState { bits: flag(v) }
    }
}

impl<'a> From<&'a [Modifier]> for ModifierState {
    /// The set of the modifiers that `value` names, whatever their order and
    /// however often each occurs.
    fn from(value: &'a [Modifier]) -> (r: ModifierState)
        ensures
            r@ == value@.to_set(),
            r == state_of(value@),
    {
        let mut bits: u8 = 0;
        let mut i: usize = 0;
        while i < value.len()
            invariant
                i <= value@.len(),
                bits == flags_of(value@.take(i as int)),
            decreases value@.len() - i,
        {
            assert(value@.take(i + 1).drop_last() =~= value@.take(i as int));
            bits = bits | flag_of(value[i]);
            i = i + 1;
        }
        proof {
            assert(value@.take(value@.len() as int) =~= value@);
            lemma_flags_of(value@);
        }
        let state = ModifierState { bits };
        assert(state@ =~= value@.to_set());
        state
    }
}

impl<'a> vstd::std_specs::convert::FromSpecImpl<&'a [Modifier]> for ModifierState {
    open spec fn obeys_from_spec() -> bool {
        true
    }

    open spec fn from_spec(v: &'a [Modifier]) -> ModifierState {
        state_of(v@)
    }
}

impl From<ModifierState> for Vec<Modifier> {
    /// The modifiers held, each once, in the order Ctrl, Shift, Alt, Super.
    fn from(value: ModifierState) -> (r: Vec<Modifier>)
        ensures
            r@ == listed(value@),
    {
        value.to_modifiers()
    }
}

impl vstd::std_specs::convert::FromSpecImpl<ModifierState> for Vec<Modifier> {
    open spec fn obeys_from_spec() -> bool {
        false
    }

    open spec fn from_spec(v: ModifierState) -> Vec<Modifier> {
        arbitrary()
    }
}

impl View for ModifierState {
    type V = Set<Modifier>;

    closed spec fn view(&self) -> Set<Modifier> {
        Set::new(|m: Modifier| has_flag(self.bits, m))
    }
}

/// Every modifier is one of the four, so listing a set of modifiers and collecting the
/// list again gives back the set.
pub proof fn law_listed_collects_back(held: Set<Modifier>)
    ensures
        listed(held).to_set() == held,
{
    let l = listed(held);
    assert forall|m: Modifier| l.to_set().contains(m) == held.contains(m) by {
        assert(l.to_set().contains(m) == l.contains(m));
        match m {
            Modifier::Ctrl => {
                if held.contains(m) {
                    assert(l[0] == m);
                }
            },
            Modifier::Shift => {
                if held.contains(m) {
                    assert(l[if_held(held, Modifier::Ctrl).len() as int] == m);
                }
            },
            Modifier::Alt => {
                if held.contains(m) {
                    assert(l[(if_held(held, Modifier::Ctrl).len() + if_held(
                        held,
                        Modifier::Shift,
                    ).len()) as int] == m);
                }
            },
            Modifier::Super => {
                if held.contains(m) {
                    assert(l[l.len() - 1] == m);
                }
            },
        }
    }
    assert(l.to_set() =~= held);
}

/// A listing names each modifier at most once.
pub proof fn law_listed_no_duplicates(held: Set<Modifier>)
    ensures
        listed(held).no_duplicates(),
{
}

/// Two states that hold the same modifiers are the same state.
pub proof fn law_state_determined_by_modifiers(a: ModifierState, b: ModifierState)
    requires
        a.wf(),
        b.wf(),
        a@ == b@,
    ensures
        a == b,
{
    assert forall|m: Modifier| has_flag(a.bits, m) == has_flag(b.bits, m) by {
        assert(a@.contains(m) == has_flag(a.bits, m));
        assert(b@.contains(m) == has_flag(b.bits, m));
        assert(a@.contains(m) == b@.contains(m));
    }
    lemma_bits_ext(a.bits, b.bits);
}

/// A state is its flag bits: two states with the same bits are equal.
pub proof fn law_bits_determine_state(a: ModifierState, b: ModifierState)
    requires
        a.spec_bits() == b.spec_bits(),
    ensures
        a == b,
{
}

/// Making a state of the bits of a state gives back that state.
pub proof fn law_from_bits_roundtrip(s: ModifierState, r: Option<ModifierState>)
    requires
        s.wf(),
        s.spec_bits() < 16 <==> r is Some,
        r matches Some(t) ==> t.spec_bits() == s.spec_bits(),
    ensures
        r == Some(s),
{
}

/// Collecting the modifiers that a state lists gives back that very state: what
/// `ModifierState::from` makes of `to_modifiers`.
pub proof fn law_state_list_roundtrip(s: ModifierState, t: ModifierState)
    requires
        s.wf(),
        t.wf(),
        t@ == listed(s@).to_set(),
    ensures
        t == s,
{
    law_listed_collects_back(s@);
    law_state_determined_by_modifiers(s, t);
}

} // verus!
