//! Zones and the prefix rules that assign a sensor key to one of them.

use crate::key::SensorKey;
use vstd::prelude::*;

verus! {

/// The physical subsystem that a sensor belongs to.
#[derive(Clone, Copy, Debug, PartialEq, Eq, Structural, Hash)]
pub enum Zone {
    Cpu,
    Gpu,
    Memory,
    Storage,
    Battery,
    Unclassified,
}

/// One classification rule as the contracts see it: keys that begin with
/// `prefix` belong to `zone`.
pub struct Rule {
    pub prefix: Seq<u8>,
    pub zone: Zone,
}

/// One classification rule.
#[derive(Debug)]
pub struct PrefixRule {
    pub prefix: Vec<u8>,
    pub zone: Zone,
}

impl View for PrefixRule {
    type V = Rule;

    open spec fn view(&self) -> Rule {
        Rule { prefix: self.prefix@, zone: self.zone }
    }
}

/// `key` begins with `prefix`.
pub open spec fn has_prefix(key: Seq<u8>, prefix: Seq<u8>) -> bool {
    prefix.len() <= key.len() && forall|i: int| 0 <= i < prefix.len() ==> key[i] == prefix[i]
}

/// The zone of the first rule, from the front, whose prefix `key` begins
/// with; `Unclassified` when there is none.
pub open spec fn zone_of(rules: Seq<Rule>, key: Seq<u8>) -> Zone
    decreases rules.len(),
{
    if rules.len() == 0 {
        Zone::Unclassified
    } else if has_prefix(key, rules[0].prefix) {
        rules[0].zone
    } else {
        zone_of(rules.drop_first(), key)
    }
}

/// Rule `i` is the first rule that `key` satisfies.
pub open spec fn is_first_match(rules: Seq<Rule>, key: Seq<u8>, i: int) -> bool {
    &&& 0 <= i < rules.len()
    &&& has_prefix(key, rules[i].prefix)
    &&& forall|j: int| 0 <= j < i ==> !has_prefix(key, #[trigger] rules[j].prefix)
}

/// No rule is satisfied by `key`.
pub open spec fn no_match(rules: Seq<Rule>, key: Seq<u8>) -> bool {
    forall|j: int| 0 <= j < rules.len() ==> !has_prefix(key, #[trigger] rules[j].prefix)
}

/// The rules of the standard table, in priority order: CPU families first,
/// then GPU, memory, storage and battery.
pub open spec fn standard_rules() -> Seq<Rule> {
    seq![
        Rule { prefix: seq![0x54u8, 0x70u8], zone: Zone::Cpu },
        Rule { prefix: seq![0x54u8, 0x65u8], zone: Zone::Cpu },
        Rule { prefix: seq![0x54u8, 0x63u8], zone: Zone::Cpu },
        Rule { prefix: seq![0x54u8, 0x67u8], zone: Zone::Gpu },
        Rule { prefix: seq![0x54u8, 0x4du8], zone: Zone::Memory },
        Rule { prefix: seq![0x54u8, 0x6du8], zone: Zone::Memory },
        Rule { prefix: seq![0x54u8, 0x53u8], zone: Zone::Storage },
        Rule { prefix: seq![0x54u8, 0x42u8], zone: Zone::Battery },
    ]
}

/// The standard rules preceded by the upper-case CPU and GPU families.
pub open spec fn extended_rules() -> Seq<Rule> {
    seq![
        Rule { prefix: seq![0x54u8, 0x43u8], zone: Zone::Cpu },
        Rule { prefix: seq![0x54u8, 0x47u8], zone: Zone::Gpu },
    ] + standard_rules()
}

/// What the standard rules decide, written out by the key's first two bytes.
pub open spec fn standard_zone(key: Seq<u8>) -> Zone {
    if key.len() < 2 || key[0] != 0x54 {
        Zone::Unclassified
    } else if key[1] == 0x70 || key[1] == 0x65 || key[1] == 0x63 {
        Zone::Cpu
    } else if key[1] == 0x67 {
        Zone::Gpu
    } else if key[1] == 0x4d || key[1] == 0x6d {
        Zone::Memory
    } else if key[1] == 0x53 {
        Zone::Storage
    } else if key[1] == 0x42 {
        Zone::Battery
    } else {
        Zone::Unclassified
    }
}

/// Every key has exactly one zone under any rule list. Either some rule
/// matches: then there is a first one, and the zone is that rule's, whatever
/// later rules say. Or no rule matches: then the zone is `Unclassified`.
pub proof fn lemma_classification_total(rules: Seq<Rule>, key: Seq<u8>)
    ensures
        no_match(rules, key) ==> zone_of(rules, key) == Zone::Unclassified,
        !no_match(rules, key) ==> exists|i: int|
            is_first_match(rules, key, i) && zone_of(rules, key) == rules[i].zone,
        forall|i: int| is_first_match(rules, key, i) ==> zone_of(rules, key) == rules[i].zone,
    decreases rules.len(),
{
    if rules.len() == 0 {
    } else if has_prefix(key, rules[0].prefix) {
        assert(is_first_match(rules, key, 0));
        assert forall|i: int| is_first_match(rules, key, i) implies zone_of(rules, key)
            == rules[i].zone by {
            if i > 0 {
                assert(!has_prefix(key, rules[0].prefix));
            }
        }
    } else {
        let rest = rules.drop_first();
        lemma_classification_total(rest, key);
        assert forall|j: int| 0 <= j < rest.len() implies rest[j] == rules[j + 1] by {}
        if no_match(rest, key) {
            assert forall|j: int| 0 <= j < rules.len() implies !has_prefix(
                key,
                #[trigger] rules[j].prefix,
            ) by {
                if j > 0 {
                    assert(rest[j - 1] == rules[j]);
                }
            }
        } else {
            let k = choose|k: int|
                is_first_match(rest, key, k) && zone_of(rest, key) == rest[k].zone;
            assert forall|j: int| 0 <= j < k + 1 implies !has_prefix(
                key,
                #[trigger] rules[j].prefix,
            ) by {
                if j > 0 {
                    assert(rest[j - 1] == rules[j]);
                }
            }
            assert(is_first_match(rules, key, k + 1));
            let j0 = choose|j: int| 0 <= j < rest.len() && has_prefix(key, #[trigger] rest[j].prefix);
            assert(has_prefix(key, rules[j0 + 1].prefix));
        }
        assert forall|i: int| is_first_match(rules, key, i) implies zone_of(rules, key)
            == rules[i].zone by {
            assert(i > 0);
            assert forall|j: int| 0 <= j < i - 1 implies !has_prefix(
                key,
                #[trigger] rest[j].prefix,
            ) by {
                assert(rest[j] == rules[j + 1]);
            }
            assert(is_first_match(rest, key, i - 1));
        }
    }
}

/// The standard rules send a key where its first two bytes say.
pub proof fn lemma_standard_rules(key: Seq<u8>)
    ensures
        zone_of(standard_rules(), key) == standard_zone(key),
{
    let r = standard_rules();
    reveal_with_fuel(zone_of, 9);
    assert(r.len() == 8);
    let r1 = r.drop_first();
    let r2 = r1.drop_first();
    let r3 = r2.drop_first();
    let r4 = r3.drop_first();
    let r5 = r4.drop_first();
    let r6 = r5.drop_first();
    let r7 = r6.drop_first();
    let r8 = r7.drop_first();
    assert(r8.len() == 0);
    assert(r[0].prefix[0] == 0x54 && r[0].prefix[1] == 0x70 && r[0].prefix.len() == 2);
    assert(r1[0].prefix[0] == 0x54 && r1[0].prefix[1] == 0x65 && r1[0].prefix.len() == 2);
    assert(r2[0].prefix[0] == 0x54 && r2[0].prefix[1] == 0x63 && r2[0].prefix.len() == 2);
    assert(r3[0].prefix[0] == 0x54 && r3[0].prefix[1] == 0x67 && r3[0].prefix.len() == 2);
    assert(r4[0].prefix[0] == 0x54 && r4[0].prefix[1] == 0x4d && r4[0].prefix.len() == 2);
    assert(r5[0].prefix[0] == 0x54 && r5[0].prefix[1] == 0x6d && r5[0].prefix.len() == 2);
    assert(r6[0].prefix[0] == 0x54 && r6[0].prefix[1] == 0x53 && r6[0].prefix.len() == 2);
    assert(r7[0].prefix[0] == 0x54 && r7[0].prefix[1] == 0x42 && r7[0].prefix.len() == 2);
}

/// `key` begins with `prefix`.
pub fn key_has_prefix(key: SensorKey, prefix: &[u8]) -> (found: bool)
    ensures
        found == has_prefix(key.bytes(), prefix@),
{
    if prefix.len() > 4 {
        return false;
    }
    let mut i: usize = 0;
    while i < prefix.len()
        invariant
            i <= prefix.len() <= 4,
            forall|k: int| 0 <= k < i ==> key.bytes()[k] == prefix@[k],
        decreases prefix.len() - i,
    {
        if key.byte(i) != prefix[i] {
            return false;
        }
        i += 1;
    }
    true
}

/// An ordered list of prefix rules; the first rule that matches a key wins.
#[derive(Debug)]
pub struct ClassificationTable {
    rules: Vec<PrefixRule>,
}

impl View for ClassificationTable {
    type V = Seq<Rule>;

    closed spec fn view(&self) -> Seq<Rule> {
        Seq::new(self.rules@.len(), |i: int| self.rules@[i]@)
    }
}

impl ClassificationTable {
    /// A table without rules: every key is `Unclassified`.
    pub fn new() -> (table: ClassificationTable)
        ensures
            table@ == Seq::<Rule>::empty(),
    {
        let table = ClassificationTable { rules: Vec::new() };
        assert(table@ =~= Seq::<Rule>::empty());
        table
    }

    /// The table of these rules, the first of them with the highest
    /// priority.
    pub fn from_rules(rules: Vec<PrefixRule>) -> (table: ClassificationTable)
        ensures
            table@.len() == rules@.len(),
            forall|i: int| 0 <= i < rules@.len() ==> table@[i] == rules@[i]@,
    {
        ClassificationTable { rules }
    }

    /// Appends a rule with the lowest priority so far.
    pub fn push(&mut self, prefix: Vec<u8>, zone: Zone)
        ensures
            final(self)@ == old(self)@.push(Rule { prefix: prefix@, zone }),
    {
        self.rules.push(PrefixRule { prefix, zone });
        assert(self@ =~= old(self)@.push(Rule { prefix: prefix@, zone }));
    }

    /// The number of rules.
    pub fn len(&self) -> (n: usize)
        ensures
            n == self@.len(),
    {
        self.rules.len()
    }

    /// The standard table: the families `Tp`, `Te` and `Tc` for the CPU,
    /// `Tg` for the GPU, `TM` and `Tm` for memory, `TS` for storage and `TB`
    /// for the battery.
    pub fn standard() -> (table: ClassificationTable)
        ensures
            table@ == standard_rules(),
    {
        let mut table = ClassificationTable::new();
        table.push(vec![0x54u8, 0x70u8], Zone::Cpu);
        table.push(vec![0x54u8, 0x65u8], Zone::Cpu);
        table.push(vec![0x54u8, 0x63u8], Zone::Cpu);
        table.push(vec![0x54u8, 0x67u8], Zone::Gpu);
        table.push(vec![0x54u8, 0x4du8], Zone::Memory);
        table.push(vec![0x54u8, 0x6du8], Zone::Memory);
        table.push(vec![0x54u8, 0x53u8], Zone::Storage);
        table.push(vec![0x54u8, 0x42u8], Zone::Battery);
        assert(table@ =~~= standard_rules());
        table
    }

    /// The standard table preceded by the upper-case CPU and GPU families
    /// `TC` and `TG`.
    pub fn extended() -> (table: ClassificationTable)
        ensures
            table@ == extended_rules(),
    {
        let mut table = ClassificationTable::new();
        table.push(vec![0x54u8, 0x43u8], Zone::Cpu);
        table.push(vec![0x54u8, 0x47u8], Zone::Gpu);
        table.push(vec![0x54u8, 0x70u8], Zone::Cpu);
        table.push(vec![0x54u8, 0x65u8], Zone::Cpu);
        table.push(vec![0x54u8, 0x63u8], Zone::Cpu);
        table.push(vec![0x54u8, 0x67u8], Zone::Gpu);
        table.push(vec![0x54u8, 0x4du8], Zone::Memory);
        table.push(vec![0x54u8, 0x6du8], Zone::Memory);
        table.push(vec![0x54u8, 0x53u8], Zone::Storage);
        table.push(vec![0x54u8, 0x42u8], Zone::Battery);
        assert(table@ =~~= extended_rules());
        table
    }

    /// The zone of `key`: that of the first rule whose prefix the key
    /// begins with, `Unclassified` when no rule matches.
    pub fn classify(&self, key: SensorKey) -> (zone: Zone)
        ensures
            zone == zone_of(self@, key.bytes()),
    {
        let mut i: usize = 0;
        assert(self@.skip(0) =~= self@);
        while i < self.rules.len()
            invariant
                i <= self.rules.len(),
                self@.len() == self.rules.len(),
                zone_of(self@, key.bytes()) == zone_of(self@.skip(i as int), key.bytes()),
            decreases self.rules.len() - i,
        {
            let ghost rest = self@.skip(i as int);
            assert(rest[0] == self.rules@[i as int]@);
            assert(rest.drop_first() =~= self@.skip(i + 1));
            if key_has_prefix(key, self.rules[i].prefix.as_slice()) {
                return self.rules[i].zone;
            }
            i += 1;
        }
        assert(self@.skip(i as int).len() == 0);
        Zone::Unclassified
    }
}

/// The zone of `key` under the standard rules.
pub fn classify(key: SensorKey) -> (zone: Zone)
    ensures
        zone == zone_of(standard_rules(), key.bytes()),
        zone == standard_zone(key.bytes()),
{
    proof {
        lemma_standard_rules(key.bytes());
    }
    if key.byte(0) != 0x54 {
        return Zone::Unclassified;
    }
    let second: u8 = key.byte(1);
    if second == 0x70 || second == 0x65 || second == 0x63 {
        Zone::Cpu
    } else if second == 0x67 {
        Zone::Gpu
    } else if second == 0x4d || second == 0x6d {
        Zone::Memory
    } else if second == 0x53 {
        Zone::Storage
    } else if second == 0x42 {
        Zone::Battery
    } else {
        Zone::Unclassified
    }
}

} // verus!
