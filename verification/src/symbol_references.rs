//! Which symbols refer to which: the record from which it is found what a
//! change to one symbol makes invalid.
use crate::ids::StrId;
use crate::seq_set::{keep, lemma_keep_step, with_all, with_item};
use vstd::prelude::*;

verus! {

/// A symbol, or a member of a classlike: for a symbol the second part is
/// the handle of the empty string.
pub type Pair = (StrId, StrId);

/// For referring symbols and members, in the order in which they were
/// first met, what each refers to.
pub type Refs = Seq<(Pair, Seq<Pair>)>;

/// A function or a method.
#[derive(Clone, Copy, PartialEq, Eq, Structural, Debug, Hash)]
pub enum FunctionLikeIdentifier {
    Function(StrId),
    Method(StrId, StrId),
}

/// From where a reference is made.
#[derive(Clone, Copy, Debug)]
pub struct FunctionContext {
    pub calling_functionlike_id: Option<FunctionLikeIdentifier>,
    pub calling_class: Option<StrId>,
}

/// How the code base differs from the one that was analysed before.
#[derive(Debug)]
pub struct CodebaseDiff {
    pub keep: Vec<Pair>,
    pub keep_signature: Vec<Pair>,
    pub add_or_delete: Vec<Pair>,
}

/// The symbols and members that a change makes invalid.
#[derive(Debug)]
pub struct InvalidSymbols {
    pub invalid_symbol_and_member_signatures: Vec<Pair>,
    pub invalid_symbol_and_member_bodies: Vec<Pair>,
    pub partially_invalid_symbols: Vec<StrId>,
}

/// The record of references.
#[derive(Debug)]
pub struct SymbolReferences {
    /// What the body of a symbol or member refers to.
    pub symbol_references_to_symbols: Vec<(Pair, Vec<Pair>)>,
    /// What the signature of a symbol or member refers to.
    pub symbol_references_to_symbols_in_signature: Vec<(Pair, Vec<Pair>)>,
    /// The overridden members that a symbol or member refers to.
    pub symbol_references_to_overridden_members: Vec<(Pair, Vec<Pair>)>,
    /// The functions whose results a function uses.
    pub functionlike_references_to_functionlike_returns: Vec<
        (FunctionLikeIdentifier, Vec<FunctionLikeIdentifier>),
    >,
}

/// The handle of the empty string.
pub open spec fn empty_id() -> StrId {
    StrId(0)
}

/// The value of a map of references.
pub open spec fn refs_view(s: Seq<(Pair, Vec<Pair>)>) -> Refs {
    s.map_values(|e: (Pair, Vec<Pair>)| (e.0, e.1@))
}

/// The position of the first entry for `key` among the first `n`.
pub open spec fn entry_index(m: Refs, key: Pair, n: nat) -> Option<int>
    decreases n,
{
    if n == 0 || n > m.len() {
        None
    } else {
        match entry_index(m, key, (n - 1) as nat) {
            Some(i) => Some(i),
            None => if m[n - 1].0 == key {
                Some(n - 1)
            } else {
                None
            },
        }
    }
}

/// The references with all of `items` noted for `key`: added to the first
/// entry for `key`, or as a new last entry.
pub open spec fn with_refs(m: Refs, key: Pair, items: Seq<Pair>) -> Refs {
    match entry_index(m, key, m.len()) {
        Some(i) => m.update(i, (key, with_all(m[i].1, items))),
        None => m.push((key, with_all(Seq::empty(), items))),
    }
}

/// The references with `item` noted for `key`.
pub open spec fn with_ref(m: Refs, key: Pair, item: Pair) -> Refs {
    with_refs(m, key, seq![item])
}

/// The symbol as a pair.
pub open spec fn symbol(id: StrId) -> Pair {
    (id, empty_id())
}

/// Where `entry_index` finds a key.
proof fn lemma_entry_index(m: Refs, key: Pair, n: nat)
    requires
        n <= m.len(),
    ensures
        match entry_index(m, key, n) {
            Some(i) => 0 <= i < n && m[i].0 == key && forall|j: int|
                0 <= j < i ==> (#[trigger] m[j]).0 != key,
            None => forall|j: int| 0 <= j < n ==> (#[trigger] m[j]).0 != key,
        },
    decreases n,
{
    if n > 0 {
        lemma_entry_index(m, key, (n - 1) as nat);
    }
}

/// The position of the first entry for `key`.
fn find_entry(map: &Vec<(Pair, Vec<Pair>)>, key: Pair) -> (r: Option<usize>)
    ensures
        match r {
            Some(i) => entry_index(refs_view(map@), key, map@.len()) == Some(i as int) && i
                < map@.len(),
            None => entry_index(refs_view(map@), key, map@.len()) is None,
        },
{
    let ghost m = refs_view(map@);
    let mut i: usize = 0;
    while i < map.len()
        invariant
            i <= map.len(),
            m == refs_view(map@),
            entry_index(m, key, i as nat) is None,
        decreases map.len() - i,
    {
        assert(m[i as int].0 == map@[i as int].0);
        if map[i].0.0 == key.0 && map[i].0.1 == key.1 {
            proof {
                lemma_entry_found(m, key, i as int, m.len());
            }
            return Some(i);
        }
        i += 1;
    }
    None
}

/// Once found among the first entries, the position stays.
proof fn lemma_entry_found(m: Refs, key: Pair, i: int, n: nat)
    requires
        0 <= i < n <= m.len(),
        entry_index(m, key, i as nat) is None,
        m[i].0 == key,
    ensures
        entry_index(m, key, n) == Some(i),
    decreases n,
{
    if n > i + 1 {
        lemma_entry_found(m, key, i, (n - 1) as nat);
    }
}

/// True when `item` is in the list.
pub fn has_pair(items: &Vec<Pair>, item: Pair) -> (r: bool)
    ensures
        r == items@.contains(item),
{
    let mut i: usize = 0;
    while i < items.len()
        invariant
            i <= items.len(),
            forall|j: int| 0 <= j < i ==> items@[j] != item,
        decreases items.len() - i,
    {
        if items[i].0 == item.0 && items[i].1 == item.1 {
            assert(items@[i as int] == item);
            return true;
        }
        i += 1;
    }
    false
}

/// Adds `item` unless it is listed already.
pub fn add_pair(items: &mut Vec<Pair>, item: Pair)
    ensures
        final(items)@ == with_item(old(items)@, item),
{
    if !has_pair(items, item) {
        items.push(item);
    }
}

/// Adds every item of `more` that is not listed yet.
pub fn add_pairs(items: &mut Vec<Pair>, more: &Vec<Pair>)
    ensures
        final(items)@ == with_all(old(items)@, more@),
{
    let mut i: usize = 0;
    assert(more@.take(0) =~= Seq::<Pair>::empty());
    while i < more.len()
        invariant
            i <= more.len(),
            items@ == with_all(old(items)@, more@.take(i as int)),
        decreases more.len() - i,
    {
        proof {
            let t = more@.take(i as int + 1);
            assert(t.drop_last() =~= more@.take(i as int));
            assert(t.last() == more@[i as int]);
        }
        add_pair(items, more[i]);
        i += 1;
    }
    assert(more@.take(i as int) =~= more@);
}

/// Notes all of `items` for `key`.
fn note_all(map: &mut Vec<(Pair, Vec<Pair>)>, key: Pair, items: &Vec<Pair>)
    ensures
        refs_view(final(map)@) == with_refs(refs_view(old(map)@), key, items@),
{
    let ghost before = refs_view(map@);
    match find_entry(map, key) {
        Some(i) => {
            let entry = map.remove(i);
            let mut known = entry.1;
            assert(known@ == before[i as int].1);
            add_pairs(&mut known, items);
            map.insert(i, (key, known));
            assert(refs_view(map@) =~= before.update(i as int, (key, known@)));
        },
        None => {
            let mut known: Vec<Pair> = Vec::new();
            add_pairs(&mut known, items);
            map.push((key, known));
            assert(refs_view(map@) =~= before.push((key, known@)));
        },
    }
}

/// Notes `item` for `key`.
fn note(map: &mut Vec<(Pair, Vec<Pair>)>, key: Pair, item: Pair)
    ensures
        refs_view(final(map)@) == with_ref(refs_view(old(map)@), key, item),
{
    let mut items: Vec<Pair> = Vec::new();
    items.push(item);
    assert(items@ =~= seq![item]);
    note_all(map, key, &items);
}

/// The mathematical value of a [`SymbolReferences`].
pub struct ReferencesView {
    pub symbols: Refs,
    pub signatures: Refs,
    pub overridden: Refs,
    pub returns: Seq<(FunctionLikeIdentifier, Seq<FunctionLikeIdentifier>)>,
}

impl View for SymbolReferences {
    type V = ReferencesView;

    open spec fn view(&self) -> ReferencesView {
        ReferencesView {
            symbols: refs_view(self.symbol_references_to_symbols@),
            signatures: refs_view(self.symbol_references_to_symbols_in_signature@),
            overridden: refs_view(self.symbol_references_to_overridden_members@),
            returns: self.functionlike_references_to_functionlike_returns@.map_values(
                |e: (FunctionLikeIdentifier, Vec<FunctionLikeIdentifier>)| (e.0, e.1@),
            ),
        }
    }
}

/// The record with a reference from `key` to `item` noted: among the
/// references of signatures, or among those of bodies.
pub open spec fn noted(r: ReferencesView, key: Pair, item: Pair, in_signature: bool) -> ReferencesView {
    if in_signature {
        ReferencesView { signatures: with_ref(r.signatures, key, item), ..r }
    } else {
        ReferencesView { symbols: with_ref(r.symbols, key, item), ..r }
    }
}

/// The record with a reference from a symbol to a symbol.
pub open spec fn symbol_to_symbol(
    r: ReferencesView,
    referencing_symbol: StrId,
    to: StrId,
    in_signature: bool,
) -> ReferencesView {
    noted(r, symbol(referencing_symbol), symbol(to), in_signature)
}

/// The record with a reference from a symbol to a member: the symbol then
/// refers to the member's classlike too.
pub open spec fn symbol_to_member(
    r: ReferencesView,
    referencing_symbol: StrId,
    class_member: Pair,
    in_signature: bool,
) -> ReferencesView {
    noted(
        symbol_to_symbol(r, referencing_symbol, class_member.0, in_signature),
        symbol(referencing_symbol),
        class_member,
        in_signature,
    )
}

/// The record with a reference from a member to a symbol: the member's
/// classlike then refers to the symbol too.
pub open spec fn member_to_symbol(
    r: ReferencesView,
    referencing_class_member: Pair,
    to: StrId,
    in_signature: bool,
) -> ReferencesView {
    noted(
        symbol_to_symbol(r, referencing_class_member.0, to, in_signature),
        referencing_class_member,
        symbol(to),
        in_signature,
    )
}

/// The record with a reference from a member to a member: the referring
/// member and its classlike then refer to the other member's classlike
/// too.
pub open spec fn member_to_member(
    r: ReferencesView,
    referencing_class_member: Pair,
    class_member: Pair,
    in_signature: bool,
) -> ReferencesView {
    noted(
        member_to_symbol(
            symbol_to_symbol(r, referencing_class_member.0, class_member.0, in_signature),
            referencing_class_member,
            class_member.0,
            in_signature,
        ),
        referencing_class_member,
        class_member,
        in_signature,
    )
}

/// The symbol or member from which a reference is made: the calling
/// function or method, else the calling class; none where neither is
/// known.
pub open spec fn referrer(context: FunctionContext) -> Option<Pair> {
    match context.calling_functionlike_id {
        Some(FunctionLikeIdentifier::Function(name)) => Some(symbol(name)),
        Some(FunctionLikeIdentifier::Method(class_name, name)) => Some((class_name, name)),
        None => match context.calling_class {
            Some(class_name) => Some(symbol(class_name)),
            None => None,
        },
    }
}

/// The reference is made from a method.
pub open spec fn from_method(context: FunctionContext) -> bool {
    context.calling_functionlike_id matches Some(FunctionLikeIdentifier::Method(_, _))
}

/// The record with `functionlike` noted among those whose result
/// `referencing` uses.
pub open spec fn with_return(
    m: Seq<(FunctionLikeIdentifier, Seq<FunctionLikeIdentifier>)>,
    referencing: FunctionLikeIdentifier,
    functionlike: FunctionLikeIdentifier,
) -> Seq<(FunctionLikeIdentifier, Seq<FunctionLikeIdentifier>)> {
    if exists|i: int| 0 <= i < m.len() && (#[trigger] m[i]).0 == referencing {
        let i = first_return_entry(m, referencing);
        m.update(i, (referencing, with_item(m[i].1, functionlike)))
    } else {
        m.push((referencing, seq![functionlike]))
    }
}

/// The position of the first entry for `referencing`.
pub open spec fn first_return_entry(
    m: Seq<(FunctionLikeIdentifier, Seq<FunctionLikeIdentifier>)>,
    referencing: FunctionLikeIdentifier,
) -> int {
    choose|i: int|
        0 <= i < m.len() && (#[trigger] m[i]).0 == referencing && forall|j: int|
            0 <= j < i ==> (#[trigger] m[j]).0 != referencing
}

/// The references of `other` taken over, entry by entry.
pub open spec fn merged_refs(m: Refs, other: Refs, n: nat) -> Refs
    decreases n,
{
    if n == 0 || n > other.len() {
        m
    } else {
        with_refs(merged_refs(m, other, (n - 1) as nat), other[n - 1].0, other[n - 1].1)
    }
}

/// Everything that the first `n` entries refer to, added to `found`.
pub open spec fn referenced(m: Refs, n: nat, found: Seq<Pair>) -> Seq<Pair>
    decreases n,
{
    if n == 0 || n > m.len() {
        found
    } else {
        with_all(referenced(m, (n - 1) as nat, found), m[n - 1].1)
    }
}

/// Takes over the references of a map, entry by entry.
fn merge_refs(map: &mut Vec<(Pair, Vec<Pair>)>, other: &Vec<(Pair, Vec<Pair>)>)
    ensures
        refs_view(final(map)@) == merged_refs(
            refs_view(old(map)@),
            refs_view(other@),
            other@.len(),
        ),
{
    let ghost start = refs_view(map@);
    let ghost ov = refs_view(other@);
    let mut i: usize = 0;
    while i < other.len()
        invariant
            i <= other.len(),
            ov == refs_view(other@),
            refs_view(map@) == merged_refs(start, ov, i as nat),
        decreases other.len() - i,
    {
        assert(ov[i as int] == (other@[i as int].0, other@[i as int].1@));
        note_all(map, other[i].0, &other[i].1);
        i += 1;
    }
}

/// Adds to `found` everything that the entries refer to.
fn collect_referenced(map: &Vec<(Pair, Vec<Pair>)>, found: &mut Vec<Pair>)
    ensures
        final(found)@ == referenced(refs_view(map@), map@.len(), old(found)@),
{
    let ghost m = refs_view(map@);
    let mut i: usize = 0;
    while i < map.len()
        invariant
            i <= map.len(),
            m == refs_view(map@),
            found@ == referenced(m, i as nat, old(found)@),
        decreases map.len() - i,
    {
        assert(m[i as int].1 == map@[i as int].1@);
        add_pairs(found, &map[i].1);
        i += 1;
    }
}

impl SymbolReferences {
    /// A record without references.
    pub fn new() -> (r: Self)
        ensures
            r@.symbols.len() == 0,
            r@.signatures.len() == 0,
            r@.overridden.len() == 0,
            r@.returns.len() == 0,
    {
        Self {
            symbol_references_to_symbols: Vec::new(),
            symbol_references_to_symbols_in_signature: Vec::new(),
            symbol_references_to_overridden_members: Vec::new(),
            functionlike_references_to_functionlike_returns: Vec::new(),
        }
    }

    /// Notes a reference from `key` to `item`.
    fn note_reference(&mut self, key: Pair, item: Pair, in_signature: bool)
        ensures
            final(self)@ == noted(old(self)@, key, item, in_signature),
    {
        if in_signature {
            note(&mut self.symbol_references_to_symbols_in_signature, key, item);
        } else {
            note(&mut self.symbol_references_to_symbols, key, item);
        }
    }

    /// Notes that a symbol refers to a member of a classlike.
    pub fn add_symbol_reference_to_class_member(
        &mut self,
        referencing_symbol: StrId,
        class_member: (StrId, StrId),
        in_signature: bool,
    )
        ensures
            final(self)@ == symbol_to_member(
                old(self)@,
                referencing_symbol,
                class_member,
                in_signature,
            ),
    {
        self.add_symbol_reference_to_symbol(referencing_symbol, class_member.0, in_signature);
        self.note_reference((referencing_symbol, StrId(0)), class_member, in_signature);
    }

    /// Notes that a symbol refers to a symbol.
    pub fn add_symbol_reference_to_symbol(
        &mut self,
        referencing_symbol: StrId,
        symbol: StrId,
        in_signature: bool,
    )
        ensures
            final(self)@ == symbol_to_symbol(old(self)@, referencing_symbol, symbol, in_signature),
    {
        self.note_reference((referencing_symbol, StrId(0)), (symbol, StrId(0)), in_signature);
    }

    /// Notes that a member of a classlike refers to another member.
    pub fn add_class_member_reference_to_class_member(
        &mut self,
        referencing_class_member: (StrId, StrId),
        class_member: (StrId, StrId),
        in_signature: bool,
    )
        ensures
            final(self)@ == member_to_member(
                old(self)@,
                referencing_class_member,
                class_member,
                in_signature,
            ),
    {
        self.add_symbol_reference_to_symbol(
            referencing_class_member.0,
            class_member.0,
            in_signature,
        );
        self.add_class_member_reference_to_symbol(
            referencing_class_member,
            class_member.0,
            in_signature,
        );
        self.note_reference(referencing_class_member, class_member, in_signature);
    }

    /// Notes that a member of a classlike refers to a symbol.
    pub fn add_class_member_reference_to_symbol(
        &mut self,
        referencing_class_member: (StrId, StrId),
        symbol: StrId,
        in_signature: bool,
    )
        ensures
            final(self)@ == member_to_symbol(
                old(self)@,
                referencing_class_member,
                symbol,
                in_signature,
            ),
    {
        self.add_symbol_reference_to_symbol(referencing_class_member.0, symbol, in_signature);
        self.note_reference(referencing_class_member, (symbol, StrId(0)), in_signature);
    }

    /// Notes a reference to a member of a classlike from where the context
    /// says; nothing where the context names neither a function nor a
    /// class.
    pub fn add_reference_to_class_member(
        &mut self,
        function_context: &FunctionContext,
        class_member: (StrId, StrId),
        in_signature: bool,
    )
        ensures
            final(self)@ == match referrer(*function_context) {
                Some(from) => if from_method(*function_context) {
                    member_to_member(old(self)@, from, class_member, in_signature)
                } else {
                    symbol_to_member(old(self)@, from.0, class_member, in_signature)
                },
                None => old(self)@,
            },
    {
        match function_context.calling_functionlike_id {
            Some(FunctionLikeIdentifier::Function(function_name)) => {
                self.add_symbol_reference_to_class_member(
                    function_name,
                    class_member,
                    in_signature,
                )
            },
            Some(FunctionLikeIdentifier::Method(class_name, function_name)) => {
                self.add_class_member_reference_to_class_member(
                    (class_name, function_name),
                    class_member,
                    in_signature,
                )
            },
            None => match function_context.calling_class {
                Some(calling_class) => self.add_symbol_reference_to_class_member(
                    calling_class,
                    class_member,
                    in_signature,
                ),
                None => {},
            },
        }
    }

    /// Notes a reference to an overridden member from where the context
    /// says.
    pub fn add_reference_to_overridden_class_member(
        &mut self,
        function_context: &FunctionContext,
        class_member: (StrId, StrId),
    )
        ensures
            final(self)@ == match referrer(*function_context) {
                Some(from) => ReferencesView {
                    overridden: with_ref(old(self)@.overridden, from, class_member),
                    ..old(self)@
                },
                None => old(self)@,
            },
    {
        let from = match function_context.calling_functionlike_id {
            Some(FunctionLikeIdentifier::Function(function_name)) => Some(
                (function_name, StrId(0)),
            ),
            Some(FunctionLikeIdentifier::Method(class_name, function_name)) => Some(
                (class_name, function_name),
            ),
            None => match function_context.calling_class {
                Some(calling_class) => Some((calling_class, StrId(0))),
                None => None,
            },
        };
        match from {
            Some(key) => note(&mut self.symbol_references_to_overridden_members, key, class_member),
            None => {},
        }
    }

    /// Notes a reference to a symbol from where the context says.
    pub fn add_reference_to_symbol(
        &mut self,
        function_context: &FunctionContext,
        symbol: StrId,
        in_signature: bool,
    )
        ensures
            final(self)@ == match referrer(*function_context) {
                Some(from) => if from_method(*function_context) {
                    member_to_symbol(old(self)@, from, symbol, in_signature)
                } else {
                    symbol_to_symbol(old(self)@, from.0, symbol, in_signature)
                },
                None => old(self)@,
            },
    {
        match function_context.calling_functionlike_id {
            Some(FunctionLikeIdentifier::Function(function_name)) => {
                self.add_symbol_reference_to_symbol(function_name, symbol, in_signature)
            },
            Some(FunctionLikeIdentifier::Method(class_name, function_name)) => {
                self.add_class_member_reference_to_symbol(
                    (class_name, function_name),
                    symbol,
                    in_signature,
                )
            },
            None => match function_context.calling_class {
                Some(calling_class) => self.add_symbol_reference_to_symbol(
                    calling_class,
                    symbol,
                    in_signature,
                ),
                None => {},
            },
        }
    }

    /// Notes that `referencing_functionlike` uses the result of
    /// `functionlike`.
    pub fn add_reference_to_functionlike_return(
        &mut self,
        referencing_functionlike: FunctionLikeIdentifier,
        functionlike: FunctionLikeIdentifier,
    )
        ensures
            final(self)@ == (ReferencesView {
                returns: with_return(old(self)@.returns, referencing_functionlike, functionlike),
                ..old(self)@
            }),
    {
        let ghost before = self@.returns;
        let mut i: usize = 0;
        while i < self.functionlike_references_to_functionlike_returns.len()
            invariant
                i <= self.functionlike_references_to_functionlike_returns.len(),
                *self == *old(self),
                before == self@.returns,
                forall|j: int| 0 <= j < i ==> (#[trigger] before[j]).0 != referencing_functionlike,
            decreases self.functionlike_references_to_functionlike_returns.len() - i,
        {
            assert(before[i as int].0 == self.functionlike_references_to_functionlike_returns@[i as int].0);
            if self.functionlike_references_to_functionlike_returns[i].0
                == referencing_functionlike {
                assert(first_return_entry(before, referencing_functionlike) == i);
                let entry = self.functionlike_references_to_functionlike_returns.remove(i);
                let mut known = entry.1;
                assert(known@ == before[i as int].1);
                let mut k: usize = 0;
                let mut listed = false;
                while k < known.len()
                    invariant
                        k <= known.len(),
                        listed == exists|j: int| 0 <= j < k && known@[j] == functionlike,
                    decreases known.len() - k,
                {
                    if known[k] == functionlike {
                        listed = true;
                    }
                    k += 1;
                }
                if !listed {
                    known.push(functionlike);
                }
                assert(known@ =~= with_item(before[i as int].1, functionlike));
                self.functionlike_references_to_functionlike_returns.insert(
                    i,
                    (referencing_functionlike, known),
                );
                assert(self@.returns =~= before.update(
                    i as int,
                    (referencing_functionlike, known@),
                ));
                return ;
            }
            i += 1;
        }
        let mut known: Vec<FunctionLikeIdentifier> = Vec::new();
        known.push(functionlike);
        assert(known@ =~= seq![functionlike]);
        self.functionlike_references_to_functionlike_returns.push(
            (referencing_functionlike, known),
        );
        assert(self@.returns =~= before.push((referencing_functionlike, known@)));
    }

    /// Takes over the references of symbols and members that `other`
    /// holds.
    pub fn extend(&mut self, other: Self)
        ensures
            final(self)@ == (ReferencesView {
                symbols: merged_refs(old(self)@.symbols, other@.symbols, other@.symbols.len()),
                signatures: merged_refs(
                    old(self)@.signatures,
                    other@.signatures,
                    other@.signatures.len(),
                ),
                overridden: merged_refs(
                    old(self)@.overridden,
                    other@.overridden,
                    other@.overridden.len(),
                ),
                returns: old(self)@.returns,
            }),
    {
        merge_refs(&mut self.symbol_references_to_symbols, &other.symbol_references_to_symbols);
        merge_refs(
            &mut self.symbol_references_to_symbols_in_signature,
            &other.symbol_references_to_symbols_in_signature,
        );
        merge_refs(
            &mut self.symbol_references_to_overridden_members,
            &other.symbol_references_to_overridden_members,
        );
    }

    /// Every symbol and member that a body or a signature refers to, each
    /// once.
    pub fn get_referenced_symbols_and_members(&self) -> (r: Vec<Pair>)
        ensures
            r@ == referenced(
                self@.signatures,
                self@.signatures.len(),
                referenced(self@.symbols, self@.symbols.len(), Seq::empty()),
            ),
    {
        let mut found: Vec<Pair> = Vec::new();
        collect_referenced(&self.symbol_references_to_symbols, &mut found);
        collect_referenced(&self.symbol_references_to_symbols_in_signature, &mut found);
        found
    }

    /// Every overridden member that is referred to, each once.
    pub fn get_referenced_overridden_class_members(&self) -> (r: Vec<Pair>)
        ensures
            r@ == referenced(self@.overridden, self@.overridden.len(), Seq::empty()),
    {
        let mut found: Vec<Pair> = Vec::new();
        collect_referenced(&self.symbol_references_to_overridden_members, &mut found);
        found
    }

    /// Drops what the given symbols and members refer to.
    pub fn remove_references_from_invalid_symbols(&mut self, invalid_symbols_and_members: &Vec<Pair>)
        ensures
            final(self)@ == (ReferencesView {
                symbols: keep(old(self)@.symbols, not_among(invalid_symbols_and_members@)),
                signatures: keep(old(self)@.signatures, not_among(invalid_symbols_and_members@)),
                ..old(self)@
            }),
    {
        retain_valid(&mut self.symbol_references_to_symbols, invalid_symbols_and_members);
        retain_valid(
            &mut self.symbol_references_to_symbols_in_signature,
            invalid_symbols_and_members,
        );
    }
}

/// The entry is for none of the given symbols and members.
pub open spec fn not_among(invalid: Seq<Pair>) -> spec_fn((Pair, Seq<Pair>)) -> bool {
    |e: (Pair, Seq<Pair>)| !invalid.contains(e.0)
}

/// A copy of a list of symbols and members.
fn clone_pairs(items: &Vec<Pair>) -> (r: Vec<Pair>)
    ensures
        r@ == items@,
{
    let mut r: Vec<Pair> = Vec::new();
    let mut i: usize = 0;
    while i < items.len()
        invariant
            i <= items.len(),
            r@ == items@.take(i as int),
        decreases items.len() - i,
    {
        r.push(items[i]);
        assert(r@ =~= items@.take(i as int + 1));
        i += 1;
    }
    assert(items@.take(i as int) =~= items@);
    r
}

/// Keeps the entries that are for none of the given symbols and members.
fn retain_valid(map: &mut Vec<(Pair, Vec<Pair>)>, invalid: &Vec<Pair>)
    ensures
        refs_view(final(map)@) == keep(refs_view(old(map)@), not_among(invalid@)),
{
    let ghost before = refs_view(map@);
    let ghost f = not_among(invalid@);
    let mut kept: Vec<(Pair, Vec<Pair>)> = Vec::new();
    let mut i: usize = 0;
    assert(before.take(0) =~= Seq::<(Pair, Seq<Pair>)>::empty());
    assert(refs_view(kept@) =~= keep(before.take(0), f));
    while i < map.len()
        invariant
            i <= map.len(),
            before == refs_view(map@),
            f == not_among(invalid@),
            refs_view(kept@) == keep(before.take(i as int), f),
        decreases map.len() - i,
    {
        proof {
            lemma_keep_step(before, f, i as int);
        }
        assert(before[i as int] == (map@[i as int].0, map@[i as int].1@));
        if !has_pair(invalid, map[i].0) {
            let ghost sofar = refs_view(kept@);
            kept.push((map[i].0, clone_pairs(&map[i].1)));
            assert(refs_view(kept@) =~= sofar.push(before[i as int]));
        }
        i += 1;
    }
    assert(before.take(i as int) =~= before);
    *map = kept;
}

/// The counts with one more reference to `item` counted.
pub open spec fn tallied(counts: Seq<(Pair, u32)>, item: Pair) -> Seq<(Pair, u32)> {
    if exists|i: int| 0 <= i < counts.len() && (#[trigger] counts[i]).0 == item {
        let i = choose|i: int| 0 <= i < counts.len() && (#[trigger] counts[i]).0 == item;
        counts.update(i, (item, (counts[i].1 + 1) as u32))
    } else {
        counts.push((item, 1u32))
    }
}

/// The counts with the first `n` of `items` counted.
pub open spec fn tallied_all(counts: Seq<(Pair, u32)>, items: Seq<Pair>, n: nat) -> Seq<
    (Pair, u32),
>
    decreases n,
{
    if n == 0 || n > items.len() {
        counts
    } else {
        tallied(tallied_all(counts, items, (n - 1) as nat), items[n - 1])
    }
}

/// The counts with what the first `n` entries refer to counted.
pub open spec fn tallied_refs(counts: Seq<(Pair, u32)>, m: Refs, n: nat) -> Seq<(Pair, u32)>
    decreases n,
{
    if n == 0 || n > m.len() {
        counts
    } else {
        tallied_all(tallied_refs(counts, m, (n - 1) as nat), m[n - 1].1, m[n - 1].1.len())
    }
}

/// The number of references that the first `n` entries hold.
pub open spec fn total_refs(m: Refs, n: nat) -> nat
    decreases n,
{
    if n == 0 || n > m.len() {
        0
    } else {
        total_refs(m, (n - 1) as nat) + m[n - 1].1.len()
    }
}

/// No symbol or member is counted twice, and no count is above `bound`.
pub open spec fn counts_wf(counts: Seq<(Pair, u32)>, bound: int) -> bool {
    &&& forall|i: int, j: int|
        0 <= i < j < counts.len() ==> (#[trigger] counts[i]).0 != (#[trigger] counts[j]).0
    &&& forall|i: int| 0 <= i < counts.len() ==> (#[trigger] counts[i]).1 <= bound
}

/// Counts one more reference to `item`.
fn tally(counts: &mut Vec<(Pair, u32)>, item: Pair, Ghost(bound): Ghost<int>)
    requires
        counts_wf(old(counts)@, bound),
        0 <= bound < u32::MAX,
    ensures
        final(counts)@ == tallied(old(counts)@, item),
        counts_wf(final(counts)@, bound + 1),
{
    let ghost before = counts@;
    let mut i: usize = 0;
    while i < counts.len()
        invariant
            i <= counts.len(),
            counts@ == before,
            before == old(counts)@,
            counts_wf(before, bound),
            0 <= bound < u32::MAX,
            forall|j: int| 0 <= j < i ==> (#[trigger] before[j]).0 != item,
        decreases counts.len() - i,
    {
        if counts[i].0.0 == item.0 && counts[i].0.1 == item.1 {
            let count = counts[i].1;
            proof {
                let chosen = choose|x: int| 0 <= x < before.len() && (#[trigger] before[x]).0 == item;
                assert(before[i as int].0 == item);
                assert(chosen == i) by {
                    if chosen < i {
                        assert(before[chosen].0 != before[i as int].0);
                    } else if chosen > i {
                        assert(before[i as int].0 != before[chosen].0);
                    }
                }
            }
            assert(before[i as int].1 <= bound);
            counts.set(i, (item, count + 1));
            proof {
                let after = counts@;
                assert(after =~= tallied(before, item));
                assert forall|x: int, y: int| 0 <= x < y < after.len() implies (#[trigger] after[x]).0
                    != (#[trigger] after[y]).0 by {
                    assert(after[x].0 == before[x].0);
                    assert(after[y].0 == before[y].0);
                }
                assert forall|x: int| 0 <= x < after.len() implies (#[trigger] after[x]).1 <= bound
                    + 1 by {
                    if x != i {
                        assert(after[x] == before[x]);
                    }
                }
            }
            return ;
        }
        i += 1;
    }
    counts.push((item, 1));
    proof {
        let after = counts@;
        assert(after =~= tallied(before, item));
        assert forall|x: int, y: int| 0 <= x < y < after.len() implies (#[trigger] after[x]).0 != (
        #[trigger] after[y]).0 by {
            if y < before.len() {
                assert(after[x] == before[x] && after[y] == before[y]);
            } else {
                assert(after[x] == before[x]);
            }
        }
        assert forall|x: int| 0 <= x < after.len() implies (#[trigger] after[x]).1 <= bound + 1 by {
            if x < before.len() {
                assert(after[x] == before[x]);
            }
        }
    }
}

/// Counts what the entries refer to.
fn tally_refs(counts: &mut Vec<(Pair, u32)>, map: &Vec<(Pair, Vec<Pair>)>, Ghost(bound): Ghost<int>)
    requires
        counts_wf(old(counts)@, bound),
        0 <= bound,
        bound + total_refs(refs_view(map@), map@.len()) <= u32::MAX,
    ensures
        final(counts)@ == tallied_refs(old(counts)@, refs_view(map@), map@.len()),
        counts_wf(final(counts)@, bound + total_refs(refs_view(map@), map@.len())),
{
    let ghost m = refs_view(map@);
    let mut i: usize = 0;
    while i < map.len()
        invariant
            i <= map.len(),
            m == refs_view(map@),
            0 <= bound,
            bound + total_refs(m, map@.len()) <= u32::MAX,
            counts@ == tallied_refs(old(counts)@, m, i as nat),
            counts_wf(counts@, bound + total_refs(m, i as nat)),
        decreases map.len() - i,
    {
        let items = &map[i].1;
        assert(m[i as int].1 == items@);
        proof {
            lemma_total_refs_grows(m, (i + 1) as nat, map@.len());
        }
        let ghost base = counts@;
        let ghost start = bound + total_refs(m, i as nat);
        let mut k: usize = 0;
        while k < items.len()
            invariant
                k <= items.len(),
                0 <= start,
                start + items@.len() <= u32::MAX,
                counts@ == tallied_all(base, items@, k as nat),
                counts_wf(counts@, start + k),
            decreases items.len() - k,
        {
            tally(counts, items[k], Ghost(start + k));
            k += 1;
        }
        i += 1;
    }
}

/// More entries hold no fewer references.
proof fn lemma_total_refs_grows(m: Refs, n: nat, n2: nat)
    requires
        n <= n2 <= m.len(),
    ensures
        total_refs(m, n) <= total_refs(m, n2),
    decreases n2,
{
    if n < n2 {
        lemma_total_refs_grows(m, n, (n2 - 1) as nat);
    }
}

impl SymbolReferences {
    /// For every symbol and member that a body or a signature refers to,
    /// how many bodies and signatures refer to it.
    pub fn get_referenced_symbols_and_members_with_counts(&self) -> (r: Vec<(Pair, u32)>)
        requires
            total_refs(self@.symbols, self@.symbols.len()) + total_refs(
                self@.signatures,
                self@.signatures.len(),
            ) <= u32::MAX,
        ensures
            r@ == tallied_refs(
                tallied_refs(Seq::empty(), self@.symbols, self@.symbols.len()),
                self@.signatures,
                self@.signatures.len(),
            ),
    {
        let mut counts: Vec<(Pair, u32)> = Vec::new();
        tally_refs(&mut counts, &self.symbol_references_to_symbols, Ghost(0));
        tally_refs(
            &mut counts,
            &self.symbol_references_to_symbols_in_signature,
            Ghost(total_refs(self@.symbols, self@.symbols.len()) as int),
        );
        counts
    }
}

/// The most that finding the invalid symbols may cost.
pub const MAX_EXPENSE: usize = 5000;

/// The pair stands for a member of a classlike.
pub open spec fn is_member(p: Pair) -> bool {
    p.1.0 != 0
}

/// The pairs that stand for members.
pub open spec fn members() -> spec_fn(Pair) -> bool {
    |p: Pair| is_member(p)
}

/// The pairs that stand for symbols.
pub open spec fn symbols() -> spec_fn(Pair) -> bool {
    |p: Pair| !is_member(p)
}

/// The symbols and members among the first `n` entries that refer to `x`.
pub open spec fn referencing(m: Refs, x: Pair, n: nat) -> Seq<Pair>
    decreases n,
{
    if n == 0 || n > m.len() {
        Seq::empty()
    } else if m[n - 1].1.contains(x) {
        referencing(m, x, (n - 1) as nat).push(m[n - 1].0)
    } else {
        referencing(m, x, (n - 1) as nat)
    }
}

/// How far invalidity has spread.
pub struct Spread {
    /// The symbols and members that are still to be looked at.
    pub pending: Seq<Pair>,
    /// Those that have been looked at.
    pub seen: Seq<Pair>,
    /// The invalid symbols.
    pub invalid_symbols: Seq<Pair>,
    /// The invalid members.
    pub invalid_members: Seq<Pair>,
    /// What the search has cost.
    pub expense: nat,
}

/// One step of the spreading: the last pending symbol or member is looked
/// at. One that was seen before is dropped. Else it is invalid, and so is
/// everything whose signature refers to it, which becomes pending; the
/// step costs one, and one for each of these.
pub open spec fn spread_step(signatures: Refs, st: Spread) -> Spread {
    let x = st.pending.last();
    let rest = st.pending.drop_last();
    if st.seen.contains(x) {
        Spread { pending: rest, ..st }
    } else {
        let refs = referencing(signatures, x, signatures.len());
        let with_referrers = with_all(st.invalid_members, keep(refs, members()));
        Spread {
            pending: rest + refs,
            seen: st.seen.push(x),
            invalid_symbols: with_all(with_item(st.invalid_symbols, x), keep(refs, symbols())),
            invalid_members: if is_member(x) {
                with_item(with_referrers, x)
            } else {
                with_referrers
            },
            expense: st.expense + refs.len() + 1,
        }
    }
}

/// What is left of the budget.
pub open spec fn budget_left(expense: nat) -> nat {
    if expense > MAX_EXPENSE {
        0
    } else {
        (MAX_EXPENSE + 1 - expense) as nat
    }
}

/// The spreading carried through; none where something is pending after
/// more than [`MAX_EXPENSE`] has been spent.
pub open spec fn spread(signatures: Refs, st: Spread) -> Option<Spread>
    decreases budget_left(st.expense), st.pending.len(),
{
    if st.pending.len() == 0 {
        Some(st)
    } else if st.expense > MAX_EXPENSE {
        None
    } else {
        spread(signatures, spread_step(signatures, st))
    }
}

/// The bodies made invalid by the first `n` of the invalid symbols and
/// members: whatever has a body that refers to an invalid symbol is among
/// the first result, whatever refers to an invalid member among the
/// second.
pub open spec fn invalid_bodies(
    bodies: Refs,
    invalid: Seq<Pair>,
    n: nat,
    found: (Seq<Pair>, Seq<Pair>),
) -> (Seq<Pair>, Seq<Pair>)
    decreases n,
{
    if n == 0 || n > invalid.len() {
        found
    } else {
        let before = invalid_bodies(bodies, invalid, (n - 1) as nat, found);
        let refs = referencing(bodies, invalid[n - 1], bodies.len());
        if is_member(invalid[n - 1]) {
            (before.0, with_all(before.1, refs))
        } else {
            (with_all(before.0, refs), before.1)
        }
    }
}

/// The bodies with the first `n` symbols and members added whose
/// signature is kept: symbols to the first part, members to the second.
pub open spec fn with_kept_signatures(
    keep_signature: Seq<Pair>,
    n: nat,
    found: (Seq<Pair>, Seq<Pair>),
) -> (Seq<Pair>, Seq<Pair>)
    decreases n,
{
    if n == 0 || n > keep_signature.len() {
        found
    } else {
        let before = with_kept_signatures(keep_signature, (n - 1) as nat, found);
        if is_member(keep_signature[n - 1]) {
            (before.0, with_item(before.1, keep_signature[n - 1]))
        } else {
            (with_item(before.0, keep_signature[n - 1]), before.1)
        }
    }
}

/// The classlikes of the members.
pub open spec fn classlikes_of(pairs: Seq<Pair>) -> Seq<StrId> {
    pairs.map_values(|p: Pair| p.0)
}

/// The mathematical value of an [`InvalidSymbols`].
pub struct InvalidView {
    pub signatures: Seq<Pair>,
    pub bodies: Seq<Pair>,
    pub partially: Seq<StrId>,
}

/// What a change makes invalid: the signatures of the changed symbols and
/// of everything whose signature refers, through any number of steps, to
/// one of them; the bodies that refer to one of these, and the bodies of
/// what keeps its signature; and the classlikes of which only members are
/// invalid. None where the search costs too much.
pub open spec fn invalidated(r: ReferencesView, diff: CodebaseDiff) -> Option<InvalidView> {
    match spread(
        r.signatures,
        Spread {
            pending: diff.add_or_delete@,
            seen: Seq::empty(),
            invalid_symbols: Seq::empty(),
            invalid_members: Seq::empty(),
            expense: 0,
        },
    ) {
        None => None,
        Some(st) => {
            let from_symbols = invalid_bodies(
                r.symbols,
                st.invalid_symbols,
                st.invalid_symbols.len(),
                (Seq::empty(), Seq::empty()),
            );
            let from_members = invalid_bodies(
                r.symbols,
                st.invalid_members,
                st.invalid_members.len(),
                from_symbols,
            );
            let bodies = with_kept_signatures(
                diff.keep_signature@,
                diff.keep_signature@.len(),
                from_members,
            );
            Some(
                InvalidView {
                    signatures: with_all(st.invalid_symbols, st.invalid_members),
                    bodies: with_all(bodies.0, bodies.1),
                    partially: with_all(
                        with_all(Seq::empty(), classlikes_of(st.invalid_members)),
                        classlikes_of(bodies.1),
                    ),
                },
            )
        },
    }
}

/// The symbols and members of the entries that refer to `x`.
fn find_referencing(map: &Vec<(Pair, Vec<Pair>)>, x: Pair) -> (r: Vec<Pair>)
    ensures
        r@ == referencing(refs_view(map@), x, map@.len()),
{
    let ghost m = refs_view(map@);
    let mut r: Vec<Pair> = Vec::new();
    let mut i: usize = 0;
    while i < map.len()
        invariant
            i <= map.len(),
            m == refs_view(map@),
            r@ == referencing(m, x, i as nat),
        decreases map.len() - i,
    {
        assert(m[i as int] == (map@[i as int].0, map@[i as int].1@));
        if has_pair(&map[i].1, x) {
            r.push(map[i].0);
        }
        i += 1;
    }
    r
}

/// Adds the pairs of `more` that stand for members, or those that stand
/// for symbols.
fn add_of_kind(items: &mut Vec<Pair>, more: &Vec<Pair>, want_members: bool)
    ensures
        final(items)@ == with_all(
            old(items)@,
            keep(
                more@,
                if want_members {
                    members()
                } else {
                    symbols()
                },
            ),
        ),
{
    let ghost f = if want_members {
        members()
    } else {
        symbols()
    };
    let mut i: usize = 0;
    assert(more@.take(0) =~= Seq::<Pair>::empty());
    while i < more.len()
        invariant
            i <= more.len(),
            f == if want_members {
                members()
            } else {
                symbols()
            },
            items@ == with_all(old(items)@, keep(more@.take(i as int), f)),
        decreases more.len() - i,
    {
        proof {
            lemma_keep_step(more@, f, i as int);
            let k = keep(more@.take(i as int), f);
            assert(k.push(more@[i as int]).drop_last() =~= k);
        }
        let is_a_member = more[i].1.0 != 0;
        if is_a_member == want_members {
            add_pair(items, more[i]);
        }
        i += 1;
    }
    assert(more@.take(i as int) =~= more@);
}

/// Adds the bodies that the invalid symbols and members make invalid.
fn add_invalid_bodies(
    bodies: &Vec<(Pair, Vec<Pair>)>,
    invalid: &Vec<Pair>,
    symbol_bodies: &mut Vec<Pair>,
    member_bodies: &mut Vec<Pair>,
)
    ensures
        (final(symbol_bodies)@, final(member_bodies)@) == invalid_bodies(
            refs_view(bodies@),
            invalid@,
            invalid@.len(),
            (old(symbol_bodies)@, old(member_bodies)@),
        ),
{
    let mut i: usize = 0;
    while i < invalid.len()
        invariant
            i <= invalid.len(),
            (symbol_bodies@, member_bodies@) == invalid_bodies(
                refs_view(bodies@),
                invalid@,
                i as nat,
                (old(symbol_bodies)@, old(member_bodies)@),
            ),
        decreases invalid.len() - i,
    {
        let refs = find_referencing(bodies, invalid[i]);
        if invalid[i].1.0 != 0 {
            add_pairs(member_bodies, &refs);
        } else {
            add_pairs(symbol_bodies, &refs);
        }
        i += 1;
    }
}

/// Adds the classlikes of the members, each once.
fn add_classlikes(found: &mut Vec<StrId>, pairs: &Vec<Pair>)
    ensures
        final(found)@ == with_all(old(found)@, classlikes_of(pairs@)),
{
    let ghost ids = classlikes_of(pairs@);
    let mut i: usize = 0;
    assert(ids.take(0) =~= Seq::<StrId>::empty());
    while i < pairs.len()
        invariant
            i <= pairs.len(),
            ids == classlikes_of(pairs@),
            found@ == with_all(old(found)@, ids.take(i as int)),
        decreases pairs.len() - i,
    {
        proof {
            let t = ids.take(i as int + 1);
            assert(t.drop_last() =~= ids.take(i as int));
            assert(t.last() == pairs@[i as int].0);
        }
        let id = pairs[i].0;
        let mut k: usize = 0;
        let mut listed = false;
        while k < found.len()
            invariant
                k <= found.len(),
                listed == exists|j: int| 0 <= j < k && found@[j] == id,
            decreases found.len() - k,
        {
            if found[k] == id {
                listed = true;
            }
            k += 1;
        }
        if !listed {
            found.push(id);
        }
        i += 1;
    }
    assert(ids.take(i as int) =~= ids);
}

impl View for InvalidSymbols {
    type V = InvalidView;

    open spec fn view(&self) -> InvalidView {
        InvalidView {
            signatures: self.invalid_symbol_and_member_signatures@,
            bodies: self.invalid_symbol_and_member_bodies@,
            partially: self.partially_invalid_symbols@,
        }
    }
}

impl SymbolReferences {
    /// What a change to the code base makes invalid; none where finding it
    /// costs more than [`MAX_EXPENSE`].
    pub fn get_invalid_symbols(&self, codebase_diff: &CodebaseDiff) -> (r: Option<InvalidSymbols>)
        ensures
            match r {
                Some(invalid) => invalidated(self@, *codebase_diff) == Some(invalid@),
                None => invalidated(self@, *codebase_diff) is None,
            },
    {
        let ghost signatures = self@.signatures;
        let ghost start = Spread {
            pending: codebase_diff.add_or_delete@,
            seen: Seq::empty(),
            invalid_symbols: Seq::empty(),
            invalid_members: Seq::empty(),
            expense: 0,
        };
        let mut invalid_symbols: Vec<Pair> = Vec::new();
        let mut invalid_symbol_members: Vec<Pair> = Vec::new();
        let mut new_invalid_symbols = clone_pairs(&codebase_diff.add_or_delete);
        let mut seen_symbols: Vec<Pair> = Vec::new();
        let mut expense: usize = 0;
        let ghost mut st = start;
        while new_invalid_symbols.len() > 0
            invariant
                signatures == self@.signatures,
                start == (Spread {
                    pending: codebase_diff.add_or_delete@,
                    seen: Seq::empty(),
                    invalid_symbols: Seq::empty(),
                    invalid_members: Seq::empty(),
                    expense: 0,
                }),
                st.pending == new_invalid_symbols@,
                st.seen == seen_symbols@,
                st.invalid_symbols == invalid_symbols@,
                st.invalid_members == invalid_symbol_members@,
                (expense > MAX_EXPENSE) == (st.expense > MAX_EXPENSE),
                expense <= MAX_EXPENSE ==> expense == st.expense,
                expense <= MAX_EXPENSE + 1,
                spread(signatures, start) == spread(signatures, st),
            decreases budget_left(st.expense), st.pending.len(),
        {
            if expense > MAX_EXPENSE {
                return None;
            }
            let ghost before = st;
            let new_invalid_symbol = new_invalid_symbols.pop().unwrap();
            assert(new_invalid_symbols@ =~= before.pending.drop_last());
            if has_pair(&seen_symbols, new_invalid_symbol) {
                proof {
                    st = spread_step(signatures, before);
                }
                continue ;
            }
            add_pair(&mut invalid_symbols, new_invalid_symbol);
            seen_symbols.push(new_invalid_symbol);
            let refs = find_referencing(
                &self.symbol_references_to_symbols_in_signature,
                new_invalid_symbol,
            );
            let mut i: usize = 0;
            let ghost pending_before = new_invalid_symbols@;
            while i < refs.len()
                invariant
                    i <= refs.len(),
                    new_invalid_symbols@ == pending_before + refs@.take(i as int),
                decreases refs.len() - i,
            {
                new_invalid_symbols.push(refs[i]);
                assert(new_invalid_symbols@ =~= pending_before + refs@.take(i as int + 1));
                i += 1;
            }
            assert(refs@.take(i as int) =~= refs@);
            add_of_kind(&mut invalid_symbol_members, &refs, true);
            add_of_kind(&mut invalid_symbols, &refs, false);
            expense = if refs.len() > MAX_EXPENSE {
                MAX_EXPENSE + 1
            } else if expense + refs.len() + 1 > MAX_EXPENSE {
                MAX_EXPENSE + 1
            } else {
                expense + refs.len() + 1
            };
            if new_invalid_symbol.1.0 != 0 {
                add_pair(&mut invalid_symbol_members, new_invalid_symbol);
            }
            proof {
                st = spread_step(signatures, before);
            }
        }
        let mut invalid_symbol_bodies: Vec<Pair> = Vec::new();
        let mut invalid_symbol_member_bodies: Vec<Pair> = Vec::new();
        add_invalid_bodies(
            &self.symbol_references_to_symbols,
            &invalid_symbols,
            &mut invalid_symbol_bodies,
            &mut invalid_symbol_member_bodies,
        );
        add_invalid_bodies(
            &self.symbol_references_to_symbols,
            &invalid_symbol_members,
            &mut invalid_symbol_bodies,
            &mut invalid_symbol_member_bodies,
        );
        let mut k: usize = 0;
        let ghost found = (invalid_symbol_bodies@, invalid_symbol_member_bodies@);
        while k < codebase_diff.keep_signature.len()
            invariant
                k <= codebase_diff.keep_signature.len(),
                (invalid_symbol_bodies@, invalid_symbol_member_bodies@) == with_kept_signatures(
                    codebase_diff.keep_signature@,
                    k as nat,
                    found,
                ),
            decreases codebase_diff.keep_signature.len() - k,
        {
            let keep_signature = codebase_diff.keep_signature[k];
            if keep_signature.1.0 != 0 {
                add_pair(&mut invalid_symbol_member_bodies, keep_signature);
            } else {
                add_pair(&mut invalid_symbol_bodies, keep_signature);
            }
            k += 1;
        }
        let mut partially_invalid_symbols: Vec<StrId> = Vec::new();
        add_classlikes(&mut partially_invalid_symbols, &invalid_symbol_members);
        add_classlikes(&mut partially_invalid_symbols, &invalid_symbol_member_bodies);
        add_pairs(&mut invalid_symbols, &invalid_symbol_members);
        add_pairs(&mut invalid_symbol_bodies, &invalid_symbol_member_bodies);
        Some(
            InvalidSymbols {
                invalid_symbol_and_member_signatures: invalid_symbols,
                invalid_symbol_and_member_bodies: invalid_symbol_bodies,
                partially_invalid_symbols,
            },
        )
    }
}

} // verus!
