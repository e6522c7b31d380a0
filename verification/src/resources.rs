//! Resource amounts in thousandths of a unit, and named sets of them.
use vstd::prelude::*;
use vstd::string::*;

use crate::error::{Error, ErrorModel};
use crate::table::{Table, TableKey};

verus! {

impl TableKey for String {
    fn same(&self, other: &Self) -> (r: bool) {
        *self == *other
    }
}

/// A non-negative amount, counted in thousandths of a unit.
#[derive(Debug, Clone, Copy, Eq, PartialEq, Structural, Ord, PartialOrd)]
pub struct ResourceQuantity {
    amount: i64,
}

impl View for ResourceQuantity {
    type V = int;

    closed spec fn view(&self) -> int {
        self.amount as int
    }
}

impl Default for ResourceQuantity {
    fn default() -> (r: Self)
        ensures
            r@ == 0,
    {
        ResourceQuantity { amount: 0 }
    }
}

impl ResourceQuantity {
    #[verifier::type_invariant]
    closed spec fn non_negative(self) -> bool {
        self.amount >= 0
    }

    pub const SCALE: i64 = 1_000;

    /// A quantity of `value` thousandths.
    pub fn from_milli(value: i64) -> (r: Result<Self, Error>)
        ensures
            match r {
                Ok(quantity) => value >= 0 && quantity@ == value,
                Err(error) => value < 0 && error@ == ErrorModel::InvalidResource(
                    "quantity must be finite, non-negative, and in range"@,
                ),
            },
    {
        if value < 0 {
            return Err(
                Error::InvalidResource("quantity must be finite, non-negative, and in range".to_string()),
            );
        }
        Ok(ResourceQuantity { amount: value })
    }

    pub fn milli(self) -> (r: i64)
        ensures
            r == self@,
            r >= 0,
    {
        proof {
            use_type_invariant(&self);
        }
        self.amount
    }
}

/// The amount under `name`; what is not listed is zero.
pub open spec fn amount(set: Map<Seq<char>, int>, name: Seq<char>) -> int {
    if set.contains_key(name) {
        set[name]
    } else {
        0
    }
}

/// A set lists positive amounts that fit a machine word, and finitely many.
pub open spec fn is_resource_map(set: Map<Seq<char>, int>) -> bool {
    &&& set.dom().finite()
    &&& forall|name: Seq<char>| #[trigger] set.contains_key(name) ==> 0 < set[name] <= i64::MAX
}

/// Every amount that `needed` lists is there in `have`.
pub open spec fn fits(have: Map<Seq<char>, int>, needed: Map<Seq<char>, int>) -> bool {
    forall|name: Seq<char>| #[trigger] needed.contains_key(name) ==> amount(have, name) >= needed[name]
}

/// `have` less `needed`, name by name; names left at zero are not listed.
pub open spec fn minus(have: Map<Seq<char>, int>, needed: Map<Seq<char>, int>) -> Map<Seq<char>, int> {
    Map::new(
        |name: Seq<char>| amount(have, name) - amount(needed, name) > 0,
        |name: Seq<char>| amount(have, name) - amount(needed, name),
    )
}

/// `have` and `more` together, name by name.
pub open spec fn plus(have: Map<Seq<char>, int>, more: Map<Seq<char>, int>) -> Map<Seq<char>, int> {
    Map::new(
        |name: Seq<char>| amount(have, name) + amount(more, name) > 0,
        |name: Seq<char>| amount(have, name) + amount(more, name),
    )
}

/// Some amount of `returned`, added to `have`, is over what `total` lists.
pub open spec fn overfills(
    have: Map<Seq<char>, int>,
    returned: Map<Seq<char>, int>,
    total: Map<Seq<char>, int>,
) -> bool {
    exists|name: Seq<char>| #[trigger]
        returned.contains_key(name) && amount(have, name) + returned[name] > amount(total, name)
}

/// Some amount of `returned`, added to `have`, does not fit a machine word.
pub open spec fn overflows(have: Map<Seq<char>, int>, returned: Map<Seq<char>, int>) -> bool {
    exists|name: Seq<char>| #[trigger]
        returned.contains_key(name) && amount(have, name) + returned[name] > i64::MAX
}

/// Two resource maps that list the same amounts are the same map.
pub proof fn lemma_same_amounts(a: Map<Seq<char>, int>, b: Map<Seq<char>, int>)
    requires
        is_resource_map(a),
        is_resource_map(b),
        forall|name: Seq<char>| amount(a, name) == #[trigger] amount(b, name),
    ensures
        a == b,
{
    assert forall|name: Seq<char>| a.contains_key(name) == b.contains_key(name) by {
        assert(amount(a, name) == amount(b, name));
    }
    assert forall|name: Seq<char>| a.contains_key(name) implies a[name] == b[name] by {
        assert(amount(a, name) == amount(b, name));
    }
    assert(a =~= b);
}

/// Taking what fits leaves a resource map with the differences.
pub proof fn lemma_minus(have: Map<Seq<char>, int>, needed: Map<Seq<char>, int>)
    requires
        is_resource_map(have),
        is_resource_map(needed),
        fits(have, needed),
    ensures
        is_resource_map(minus(have, needed)),
        forall|name: Seq<char>| #[trigger]
            amount(minus(have, needed), name) == amount(have, name) - amount(needed, name),
{
    let r = minus(have, needed);
    assert(r.dom().subset_of(have.dom())) by {
        assert forall|name: Seq<char>| r.contains_key(name) implies have.contains_key(name) by {
            if needed.contains_key(name) {
            }
        }
    }
    vstd::set_lib::lemma_set_subset_finite(have.dom(), r.dom());
    assert forall|name: Seq<char>| #[trigger] amount(r, name) == amount(have, name) - amount(needed, name) by {
        if needed.contains_key(name) {
        }
    }
}

/// Returning amounts that stay within a word leaves a resource map with the sums.
pub proof fn lemma_plus(have: Map<Seq<char>, int>, more: Map<Seq<char>, int>)
    requires
        is_resource_map(have),
        is_resource_map(more),
        !overflows(have, more),
    ensures
        is_resource_map(plus(have, more)),
        forall|name: Seq<char>| #[trigger]
            amount(plus(have, more), name) == amount(have, name) + amount(more, name),
{
    let r = plus(have, more);
    assert(r.dom().subset_of(have.dom().union(more.dom())));
    vstd::set_lib::lemma_set_subset_finite(have.dom().union(more.dom()), r.dom());
    assert forall|name: Seq<char>| #[trigger] r.contains_key(name) implies 0 < r[name] <= i64::MAX by {
        if more.contains_key(name) {
        }
    }
}

/// Returning what was taken restores the set.
pub proof fn law_return_undoes_take(have: Map<Seq<char>, int>, needed: Map<Seq<char>, int>)
    requires
        is_resource_map(have),
        is_resource_map(needed),
        fits(have, needed),
    ensures
        !overfills(minus(have, needed), needed, have),
        plus(minus(have, needed), needed) == have,
{
    lemma_minus(have, needed);
    let less = minus(have, needed);
    assert forall|name: Seq<char>| #[trigger] needed.contains_key(name) implies amount(less, name)
        + needed[name] <= amount(have, name) by {
        assert(amount(less, name) == amount(have, name) - amount(needed, name));
    }
    assert forall|name: Seq<char>| #[trigger] needed.contains_key(name) implies amount(less, name)
        + needed[name] <= i64::MAX by {
        assert(amount(less, name) == amount(have, name) - amount(needed, name));
    }
    lemma_plus(less, needed);
    assert forall|name: Seq<char>| amount(plus(less, needed), name) == #[trigger] amount(have, name) by {
        assert(amount(less, name) == amount(have, name) - amount(needed, name));
    }
    lemma_same_amounts(plus(less, needed), have);
}

/// What is asked for fits if and only if no amount is more than there is, and a set
/// always fits itself.
pub proof fn law_fit_is_by_name(have: Map<Seq<char>, int>, needed: Map<Seq<char>, int>)
    requires
        is_resource_map(have),
        is_resource_map(needed),
    ensures
        fits(have, needed) <==> forall|name: Seq<char>| #[trigger]
            needed.contains_key(name) ==> have.contains_key(name) && needed[name] <= have[name],
        fits(have, have),
{
    if fits(have, needed) {
        assert forall|name: Seq<char>| #[trigger] needed.contains_key(name) implies have.contains_key(name)
            && needed[name] <= have[name] by {
            assert(amount(have, name) >= needed[name]);
        }
    }
}

/// Taking what fits leaves of every name what was there less what is taken, and names
/// of which nothing is left are not listed.
pub proof fn law_take_leaves_the_rest(have: Map<Seq<char>, int>, needed: Map<Seq<char>, int>, name: Seq<char>)
    requires
        is_resource_map(have),
        is_resource_map(needed),
        fits(have, needed),
    ensures
        have.contains_key(name) && !needed.contains_key(name) ==> minus(have, needed).contains_key(name) && minus(
            have,
            needed,
        )[name] == have[name],
        have.contains_key(name) && needed.contains_key(name) && have[name] > needed[name] ==> minus(
            have,
            needed,
        ).contains_key(name) && minus(have, needed)[name] == have[name] - needed[name],
        have.contains_key(name) && needed.contains_key(name) && have[name] == needed[name] ==> !minus(
            have,
            needed,
        ).contains_key(name),
        !have.contains_key(name) ==> !minus(have, needed).contains_key(name),
{
    if needed.contains_key(name) {
        assert(amount(have, name) >= needed[name]);
    }
}

/// Amounts may be returned as long as no name comes to more than its total, and are
/// then added name by name.
pub proof fn law_return_is_capped_by_the_total(
    have: Map<Seq<char>, int>,
    returned: Map<Seq<char>, int>,
    total: Map<Seq<char>, int>,
    name: Seq<char>,
)
    requires
        is_resource_map(have),
        is_resource_map(returned),
        is_resource_map(total),
    ensures
        !overfills(have, returned, total) && returned.contains_key(name) ==> total.contains_key(name) && (
        if have.contains_key(name) {
            have[name]
        } else {
            0
        }) + returned[name] <= total[name],
        returned.contains_key(name) && (if have.contains_key(name) {
            have[name]
        } else {
            0
        }) + returned[name] > (if total.contains_key(name) {
            total[name]
        } else {
            0
        }) ==> overfills(have, returned, total),
        have.contains_key(name) && returned.contains_key(name) ==> plus(have, returned).contains_key(name) && plus(
            have,
            returned,
        )[name] == have[name] + returned[name],
        have.contains_key(name) && !returned.contains_key(name) ==> plus(have, returned).contains_key(name) && plus(
            have,
            returned,
        )[name] == have[name],
        !have.contains_key(name) && returned.contains_key(name) ==> plus(have, returned).contains_key(name) && plus(
            have,
            returned,
        )[name] == returned[name],
        !have.contains_key(name) && !returned.contains_key(name) ==> !plus(have, returned).contains_key(name),
{
    if !overfills(have, returned, total) && returned.contains_key(name) {
        assert(amount(have, name) + returned[name] <= amount(total, name));
    }
}

/// Of several amounts for one name in a list the last counts, an amount of zero is as
/// good as none, and a name that is not in the list has none.
pub proof fn law_last_amount_counts(list: Seq<(String, i64)>, i: int, name: Seq<char>)
    ensures
        0 <= i < list.len() && (forall|j: int| i < j < list.len() ==> (#[trigger] list[j]).0@ != list[i].0@) ==> (
        listed(list).contains_key(list[i].0@) <==> list[i].1 != 0) && (list[i].1 != 0 ==> listed(list)[list[i].0@]
            == list[i].1),
        (forall|j: int| 0 <= j < list.len() ==> (#[trigger] list[j]).0@ != name) ==> !listed(list).contains_key(name),
    decreases list.len(),
{
    if list.len() > 0 {
        let rest = list.drop_last();
        let last = list.len() - 1;
        law_last_amount_counts(rest, i, name);
        if 0 <= i < list.len() && (forall|j: int| i < j < list.len() ==> (#[trigger] list[j]).0@ != list[i].0@) {
            if i < last {
                assert(rest[i] == list[i]);
                assert forall|j: int| i < j < rest.len() implies (#[trigger] rest[j]).0@ != rest[i].0@ by {
                    assert(list[j].0@ != list[i].0@);
                }
                assert(list[last].0@ != list[i].0@);
            }
        }
        if forall|j: int| 0 <= j < list.len() ==> (#[trigger] list[j]).0@ != name {
            assert forall|j: int| 0 <= j < rest.len() implies (#[trigger] rest[j]).0@ != name by {
                assert(list[j].0@ != name);
            }
            assert(list[last].0@ != name);
        }
    }
}

/// The amounts in a list. Of amounts for the same name the last one counts; zero
/// amounts are not listed.
pub open spec fn listed(list: Seq<(String, i64)>) -> Map<Seq<char>, int>
    decreases list.len(),
{
    if list.len() == 0 {
        Map::empty()
    } else {
        let rest = listed(list.drop_last());
        if list.last().1 == 0 {
            rest.remove(list.last().0@)
        } else {
            rest.insert(list.last().0@, list.last().1 as int)
        }
    }
}

/// Named amounts, such as those a worker has and a task needs.
#[derive(Debug)]
pub struct ResourceSet {
    table: Table<String, ResourceQuantity>,
}

impl View for ResourceSet {
    type V = Map<Seq<char>, int>;

    closed spec fn view(&self) -> Map<Seq<char>, int> {
        self.table@
    }
}

impl PartialEq for ResourceSet {
    fn eq(&self, other: &Self) -> (r: bool) {
        proof {
            use_type_invariant(self);
            use_type_invariant(other);
        }
        let r = self.can_fit(other) && other.can_fit(self);
        proof {
            if r {
                assert forall|name: Seq<char>| amount(self@, name) == #[trigger] amount(other@, name) by {
                    if self@.contains_key(name) {
                    }
                    if other@.contains_key(name) {
                    }
                }
                lemma_same_amounts(self@, other@);
            }
        }
        r
    }
}

impl Eq for ResourceSet {}

impl vstd::std_specs::cmp::PartialEqSpecImpl for ResourceSet {
    open spec fn obeys_eq_spec() -> bool {
        true
    }

    open spec fn eq_spec(&self, other: &Self) -> bool {
        self@ == other@
    }
}

impl Clone for ResourceSet {
    fn clone(&self) -> (r: Self)
        ensures
            r@ == self@,
    {
        proof {
            use_type_invariant(self);
        }
        ResourceSet { table: self.copy_table() }
    }
}

impl Default for ResourceSet {
    fn default() -> (r: Self)
        ensures
            r@ == Map::<Seq<char>, int>::empty(),
    {
        ResourceSet { table: Table::new() }
    }
}

impl ResourceSet {
    #[verifier::type_invariant]
    closed spec fn inv(self) -> bool {
        &&& self.table.wf()
        &&& is_resource_map(self.table@)
    }

    /// Reports that the view is a resource map, for callers that reason about it.
    pub(crate) fn note_resource_map(&self)
        ensures
            is_resource_map(self@),
    {
        proof {
            use_type_invariant(self);
        }
    }

    fn copy_table(&self) -> (table: Table<String, ResourceQuantity>)
        ensures
            table.wf(),
            table@ == self@,
    {
        proof {
            use_type_invariant(self);
            self.table.lemma_keys();
        }
        let mut table: Table<String, ResourceQuantity> = Table::new();
        let mut i: usize = 0;
        while i < self.table.len()
            invariant
                i <= self.table.keys().len(),
                self.table.wf(),
                self.table.keys().no_duplicates(),
                is_resource_map(self@),
                table.wf(),
                forall|name: Seq<char>| #[trigger]
                    table@.contains_key(name) <==> (exists|j: int|
                        0 <= j < i && #[trigger] self.table.keys()[j] == name),
                forall|name: Seq<char>| #[trigger]
                    table@.contains_key(name) ==> self.table@.contains_key(name) && table@[name]
                        == self.table@[name],
            decreases self.table.keys().len() - i,
        {
            let (name, value) = self.table.entry_at(i);
            let ghost key = name@;
            table.insert(name.clone(), *value);
            proof {
                assert(self.table.keys()[i as int] == key);
                assert forall|other: Seq<char>| #[trigger] table@.contains_key(other) implies (exists|j: int|
                    0 <= j < i + 1 && #[trigger] self.table.keys()[j] == other) by {
                    if other == key {
                        assert(self.table.keys()[i as int] == other);
                    }
                }
            }
            i += 1;
        }
        proof {
            self.table.lemma_keys();
            assert forall|name: Seq<char>| self.table@.contains_key(name) == table@.contains_key(name) by {
                if self.table@.contains_key(name) {
                    assert(self.table.keys().contains(name));
                }
            }
            assert(table@ =~= self.table@);
        }
        table
    }

    /// Amounts of `cpu` and `gpu` in thousandths; zero amounts are not listed.
    pub fn cpu_gpu_milli(cpu: i64, gpu: i64) -> (r: Result<Self, Error>)
        ensures
            match r {
                Ok(set) => {
                    &&& cpu >= 0
                    &&& gpu >= 0
                    &&& is_resource_map(set@)
                    &&& forall|name: Seq<char>| #[trigger]
                        amount(set@, name) == if name == "cpu"@ {
                            cpu as int
                        } else if name == "gpu"@ {
                            gpu as int
                        } else {
                            0
                        }
                },
                Err(error) => (cpu < 0 || gpu < 0) && error@ == ErrorModel::InvalidResource(
                    "quantity must be finite, non-negative, and in range"@,
                ),
            },
    {
        proof {
            reveal_strlit("cpu");
            reveal_strlit("gpu");
            assert("cpu"@[0] != "gpu"@[0]);
        }
        let cpu_quantity = ResourceQuantity::from_milli(cpu)?;
        let gpu_quantity = ResourceQuantity::from_milli(gpu)?;
        let mut table: Table<String, ResourceQuantity> = Table::new();
        if cpu_quantity.milli() != 0 {
            table.insert("cpu".to_string(), cpu_quantity);
        }
        if gpu_quantity.milli() != 0 {
            table.insert("gpu".to_string(), gpu_quantity);
        }
        proof {
            table.lemma_keys();
        }
        Ok(ResourceSet { table })
    }

    /// Every amount that is listed, with its name.
    pub fn entries(&self) -> (r: Vec<(String, i64)>)
        ensures
            r@.len() == self@.dom().len(),
            listed(r@) == self@,
    {
        proof {
            use_type_invariant(self);
            self.table.lemma_keys();
        }
        let mut r: Vec<(String, i64)> = Vec::new();
        let mut i: usize = 0;
        assert(r@ =~= Seq::<(String, i64)>::empty());
        while i < self.table.len()
            invariant
                i <= self.table.keys().len(),
                self.table.wf(),
                self.table.keys().no_duplicates(),
                is_resource_map(self@),
                r@.len() == i,
                forall|name: Seq<char>| #[trigger]
                    listed(r@).contains_key(name) <==> self.table.keys().take(i as int).contains(name),
                forall|name: Seq<char>| #[trigger] listed(r@).contains_key(name) ==> listed(r@)[name] == self@[name],
            decreases self.table.keys().len() - i,
        {
            let (name, value) = self.table.entry_at(i);
            let ghost before = r@;
            let ghost keys = self.table.keys();
            let amount: i64 = value.milli();
            r.push((name.clone(), amount));
            proof {
                assert(self@.contains_key(name@));
                assert(amount > 0);
                assert(r@.drop_last() =~= before);
                assert(listed(r@) == listed(before).insert(name@, amount as int));
                assert(keys.take(i + 1) =~= keys.take(i as int).push(keys[i as int]));
                assert forall|other: Seq<char>| #[trigger] listed(r@).contains_key(other) <==> keys.take(
                    i + 1,
                ).contains(other) by {
                    assert(listed(before).contains_key(other) <==> keys.take(i as int).contains(other));
                    if keys.take(i as int).contains(other) {
                        let j = keys.take(i as int).index_of(other);
                        assert(keys.take(i + 1)[j] == other);
                    }
                    if other == keys[i as int] {
                        assert(keys.take(i + 1)[i as int] == other);
                    }
                    if keys.take(i + 1).contains(other) && other != keys[i as int] {
                        let j = keys.take(i + 1).index_of(other);
                        assert(keys.take(i as int)[j] == other);
                    }
                }
            }
            i += 1;
        }
        proof {
            assert(self.table.keys().take(i as int) =~= self.table.keys());
            self.table.lemma_keys();
            assert(listed(r@) =~= self@);
        }
        r
    }

    /// The amounts in a list, in thousandths. Of amounts for the same name the last
    /// one counts; zero amounts are not listed.
    pub fn from_entries(list: &Vec<(String, i64)>) -> (r: Result<Self, Error>)
        ensures
            match r {
                Ok(set) => set@ == listed(list@) && forall|i: int| 0 <= i < list@.len() ==> (#[trigger] list@[i]).1 >= 0,
                Err(error) => error@ == ErrorModel::InvalidResource(
                    "quantity must be finite, non-negative, and in range"@,
                ) && exists|i: int| 0 <= i < list@.len() && (#[trigger] list@[i]).1 < 0,
            },
    {
        let mut table: Table<String, ResourceQuantity> = Table::new();
        let mut i: usize = 0;
        assert(list@.take(0) =~= Seq::<(String, i64)>::empty());
        while i < list.len()
            invariant
                i <= list@.len(),
                table.wf(),
                is_resource_map(table@),
                table@ == listed(list@.take(i as int)),
                forall|j: int| 0 <= j < i ==> (#[trigger] list@[j]).1 >= 0,
            decreases list@.len() - i,
        {
            assert(list@.take(i + 1).drop_last() =~= list@.take(i as int));
            let quantity = match ResourceQuantity::from_milli(list[i].1) {
                Ok(quantity) => quantity,
                Err(error) => {
                    assert(list@[i as int].1 < 0);
                    return Err(error);
                },
            };
            if quantity.milli() == 0 {
                table.remove(&list[i].0);
            } else {
                table.insert(list[i].0.clone(), quantity);
            }
            proof {
                table.lemma_keys();
            }
            i += 1;
        }
        assert(list@.take(i as int) =~= list@);
        Ok(ResourceSet { table })
    }

    /// The amount listed under `name`, or zero.
    pub fn get(&self, name: &str) -> (r: ResourceQuantity)
        ensures
            r@ == amount(self@, name@),
    {
        proof {
            use_type_invariant(self);
        }
        match self.table.get(&name.to_string()) {
            Some(quantity) => *quantity,
            None => ResourceQuantity::default(),
        }
    }

    /// Whether everything that `needed` lists is there.
    pub fn can_fit(&self, needed: &Self) -> (r: bool)
        ensures
            r == fits(self@, needed@),
    {
        proof {
            use_type_invariant(needed);
            needed.table.lemma_keys();
        }
        let mut i: usize = 0;
        while i < needed.table.len()
            invariant
                i <= needed.table.keys().len(),
                needed.table.wf(),
                needed.table@ == needed@,
                forall|j: int|
                    0 <= j < i ==> amount(self@, #[trigger] needed.table.keys()[j])
                        >= needed@[needed.table.keys()[j]],
            decreases needed.table.keys().len() - i,
        {
            let (name, value) = needed.table.entry_at(i);
            if self.get(name.as_str()).milli() < value.milli() {
                proof {
                    needed.table.lemma_keys();
                    assert(needed@.contains_key(name@));
                }
                return false;
            }
            i += 1;
        }
        proof {
            needed.table.lemma_keys();
            assert forall|name: Seq<char>| #[trigger] needed@.contains_key(name) implies amount(self@, name)
                >= needed@[name] by {
                assert(needed.table.keys().contains(name));
                let j = needed.table.keys().index_of(name);
                assert(needed.table.keys()[j] == name);
            }
        }
        true
    }

    /// Takes what `needed` lists, all of it or nothing.
    pub fn subtract(&mut self, needed: &Self) -> (r: Result<(), Error>)
        ensures
            match r {
                Ok(()) => fits(old(self)@, needed@) && final(self)@ == minus(old(self)@, needed@),
                Err(error) => {
                    &&& !fits(old(self)@, needed@)
                    &&& final(self)@ == old(self)@
                    &&& error@ == ErrorModel::InvalidResource("insufficient resources"@)
                },
            },
    {
        proof {
            use_type_invariant(&*self);
            use_type_invariant(needed);
            needed.table.lemma_keys();
        }
        if !self.can_fit(needed) {
            return Err(Error::InvalidResource("insufficient resources".to_string()));
        }
        let ghost before = self@;
        let mut table = self.copy_table();
        let mut i: usize = 0;
        while i < needed.table.len()
            invariant
                i <= needed.table.keys().len(),
                needed.table.wf(),
                needed.table@ == needed@,
                needed.table.keys().no_duplicates(),
                table.wf(),
                is_resource_map(before),
                is_resource_map(needed@),
                is_resource_map(table@),
                fits(before, needed@),
                before == self@,
                forall|name: Seq<char>|
                    (exists|j: int| 0 <= j < i && #[trigger] needed.table.keys()[j] == name)
                        ==> #[trigger] amount(table@, name) == amount(before, name) - amount(needed@, name),
                forall|name: Seq<char>|
                    !(exists|j: int| 0 <= j < i && #[trigger] needed.table.keys()[j] == name)
                        ==> #[trigger] amount(table@, name) == amount(before, name),
            decreases needed.table.keys().len() - i,
        {
            let (name, value) = needed.table.entry_at(i);
            let ghost key = name@;
            let ghost prior = table@;
            proof {
                needed.table.lemma_keys();
                table.lemma_keys();
                assert(needed@.contains_key(key));
                assert(!exists|j: int| 0 <= j < i && #[trigger] needed.table.keys()[j] == key);
                assert(amount(prior, key) == amount(before, key));
            }
            let have: i64 = match table.get(name) {
                Some(quantity) => quantity.milli(),
                None => 0,
            };
            let remaining: i64 = have - value.milli();
            if remaining == 0 {
                table.remove(name);
            } else {
                table.insert(name.clone(), ResourceQuantity { amount: remaining });
            }
            proof {
                table.lemma_keys();
                assert forall|other: Seq<char>| other != key implies #[trigger] amount(table@, other) == amount(
                    prior,
                    other,
                ) by {}
                assert(needed.table.keys()[i as int] == key);
                assert forall|other: Seq<char>| (exists|j: int|
                    0 <= j < i + 1 && #[trigger] needed.table.keys()[j] == other) implies #[trigger] amount(
                    table@,
                    other,
                ) == amount(before, other) - amount(needed@, other) by {
                    if other != key {
                        assert(exists|j: int| 0 <= j < i && #[trigger] needed.table.keys()[j] == other);
                    }
                }
                assert forall|other: Seq<char>| !(exists|j: int|
                    0 <= j < i + 1 && #[trigger] needed.table.keys()[j] == other) implies #[trigger] amount(
                    table@,
                    other,
                ) == amount(before, other) by {
                    assert(other != key);
                    assert(!exists|j: int| 0 <= j < i && #[trigger] needed.table.keys()[j] == other);
                }
            }
            i += 1;
        }
        proof {
            needed.table.lemma_keys();
            lemma_minus(before, needed@);
            assert forall|name: Seq<char>| amount(table@, name) == #[trigger] amount(
                minus(before, needed@),
                name,
            ) by {
                if needed@.contains_key(name) {
                    assert(needed.table.keys().contains(name));
                    let j = needed.table.keys().index_of(name);
                    assert(needed.table.keys()[j] == name);
                } else {
                    assert(!exists|j: int| 0 <= j < i && #[trigger] needed.table.keys()[j] == name);
                }
                assert(amount(table@, name) == amount(before, name) - amount(needed@, name));
            }
            lemma_same_amounts(table@, minus(before, needed@));
        }
        *self = ResourceSet { table };
        Ok(())
    }

    /// Gives back what `returned` lists, all of it or nothing; no amount may go
    /// over what `total` lists.
    pub fn add_capped(&mut self, returned: &Self, total: &Self) -> (r: Result<(), Error>)
        ensures
            match r {
                Ok(()) => {
                    &&& !overfills(old(self)@, returned@, total@)
                    &&& final(self)@ == plus(old(self)@, returned@)
                },
                Err(error) => {
                    &&& overfills(old(self)@, returned@, total@)
                    &&& final(self)@ == old(self)@
                    &&& {
                        ||| error@ == ErrorModel::InvalidResource("resource release exceeds worker total"@)
                        ||| overflows(old(self)@, returned@) && error@ == ErrorModel::InvalidResource(
                            "resource overflow"@,
                        )
                    }
                },
            },
    {
        proof {
            use_type_invariant(&*self);
            use_type_invariant(returned);
            use_type_invariant(total);
            returned.table.lemma_keys();
        }
        let ghost before = self@;
        let mut table = self.copy_table();
        let mut i: usize = 0;
        while i < returned.table.len()
            invariant
                i <= returned.table.keys().len(),
                returned.table.wf(),
                returned.table@ == returned@,
                returned.table.keys().no_duplicates(),
                table.wf(),
                is_resource_map(before),
                is_resource_map(returned@),
                is_resource_map(total@),
                is_resource_map(table@),
                before == self@,
                forall|j: int|
                    0 <= j < i ==> amount(before, #[trigger] returned.table.keys()[j])
                        + returned@[returned.table.keys()[j]] <= amount(total@, returned.table.keys()[j]),
                forall|name: Seq<char>|
                    (exists|j: int| 0 <= j < i && #[trigger] returned.table.keys()[j] == name)
                        ==> #[trigger] amount(table@, name) == amount(before, name) + amount(returned@, name),
                forall|name: Seq<char>|
                    !(exists|j: int| 0 <= j < i && #[trigger] returned.table.keys()[j] == name)
                        ==> #[trigger] amount(table@, name) == amount(before, name),
            decreases returned.table.keys().len() - i,
        {
            let (name, value) = returned.table.entry_at(i);
            let ghost key = name@;
            let ghost prior = table@;
            proof {
                returned.table.lemma_keys();
                table.lemma_keys();
                assert(returned@.contains_key(key));
                assert(!exists|j: int| 0 <= j < i && #[trigger] returned.table.keys()[j] == key);
                assert(amount(prior, key) == amount(before, key));
            }
            let have: i64 = match table.get(name) {
                Some(quantity) => quantity.milli(),
                None => 0,
            };
            let quantity: i64 = match have.checked_add(value.milli()) {
                Some(sum) => sum,
                None => {
                    assert(returned@.contains_key(key) && amount(before, key) + returned@[key] > i64::MAX);
                    assert(amount(total@, key) <= i64::MAX);
                    return Err(Error::InvalidResource("resource overflow".to_string()));
                },
            };
            if quantity > total.get(name.as_str()).milli() {
                assert(returned@.contains_key(key) && amount(before, key) + returned@[key] > amount(total@, key));
                return Err(Error::InvalidResource("resource release exceeds worker total".to_string()));
            }
            if quantity == 0 {
                table.remove(name);
            } else {
                table.insert(name.clone(), ResourceQuantity { amount: quantity });
            }
            proof {
                table.lemma_keys();
                assert forall|other: Seq<char>| other != key implies #[trigger] amount(table@, other) == amount(
                    prior,
                    other,
                ) by {}
                assert(returned.table.keys()[i as int] == key);
                assert forall|other: Seq<char>| (exists|j: int|
                    0 <= j < i + 1 && #[trigger] returned.table.keys()[j] == other) implies #[trigger] amount(
                    table@,
                    other,
                ) == amount(before, other) + amount(returned@, other) by {
                    if other != key {
                        assert(exists|j: int| 0 <= j < i && #[trigger] returned.table.keys()[j] == other);
                    }
                }
                assert forall|other: Seq<char>| !(exists|j: int|
                    0 <= j < i + 1 && #[trigger] returned.table.keys()[j] == other) implies #[trigger] amount(
                    table@,
                    other,
                ) == amount(before, other) by {
                    assert(other != key);
                    assert(!exists|j: int| 0 <= j < i && #[trigger] returned.table.keys()[j] == other);
                }
            }
            i += 1;
        }
        proof {
            returned.table.lemma_keys();
            assert forall|name: Seq<char>| #[trigger] returned@.contains_key(name) implies amount(before, name)
                + returned@[name] <= amount(total@, name) by {
                assert(returned.table.keys().contains(name));
                let j = returned.table.keys().index_of(name);
                assert(returned.table.keys()[j] == name);
            }
            lemma_plus(before, returned@);
            assert forall|name: Seq<char>| amount(table@, name) == #[trigger] amount(
                plus(before, returned@),
                name,
            ) by {
                if returned@.contains_key(name) {
                    assert(returned.table.keys().contains(name));
                    let j = returned.table.keys().index_of(name);
                    assert(returned.table.keys()[j] == name);
                } else {
                    assert(!exists|j: int| 0 <= j < i && #[trigger] returned.table.keys()[j] == name);
                }
                assert(amount(table@, name) == amount(before, name) + amount(returned@, name));
            }
            lemma_same_amounts(table@, plus(before, returned@));
        }
        *self = ResourceSet { table };
        Ok(())
    }
}

} // verus!
