use vstd::prelude::*;
use crate::error::DecodeError;
use crate::table::TableBuilder;

verus! {

/// Names of the attribute lists in a scalar-labelled table.
#[derive(Debug, Clone, Copy, PartialEq, Eq, Structural)]
pub enum AttributeKey {
    MaxHealth,
    HealthCureRatio,
    Attack,
    AttackUp,
    PhyAttack,
    PhyAttackUp,
    ElmAttack,
    ElmAttackUp,
    SpeAttack,
    SpeAttackUp,
    Defense,
    DefenseUp,
    PhyDefense,
    PhyDefenseUp,
    ElmDefense,
    ElmDefenseUp,
    SpeDefense,
    EpeDefenseUp,
    CritChanceRatio,
    CritDamageRatio,
    MaxShield,
    ShieldSpeed,
    PhyBreakUp,
    ElmBreakUp,
    SpeBreakUp,
}

impl Default for AttributeKey {
    fn default() -> (r: AttributeKey)
        ensures
            r == AttributeKey::MaxHealth,
    {
        AttributeKey::MaxHealth
    }
}

/// The name that the input spells for each attribute key.
pub open spec fn attribute_name(k: AttributeKey) -> Seq<char> {
    match k {
        AttributeKey::MaxHealth => "max_health"@,
        AttributeKey::HealthCureRatio => "health_cure_ratio"@,
        AttributeKey::Attack => "attack"@,
        AttributeKey::AttackUp => "attack_up"@,
        AttributeKey::PhyAttack => "phy_attack"@,
        AttributeKey::PhyAttackUp => "phy_attack_up"@,
        AttributeKey::ElmAttack => "elm_attack"@,
        AttributeKey::ElmAttackUp => "elm_attack_up"@,
        AttributeKey::SpeAttack => "spe_attack"@,
        AttributeKey::SpeAttackUp => "spe_attack_up"@,
        AttributeKey::Defense => "defense"@,
        AttributeKey::DefenseUp => "defense_up"@,
        AttributeKey::PhyDefense => "phy_defense"@,
        AttributeKey::PhyDefenseUp => "phy_defense_up"@,
        AttributeKey::ElmDefense => "elm_defense"@,
        AttributeKey::ElmDefenseUp => "elm_defense_up"@,
        AttributeKey::SpeDefense => "spe_defense"@,
        AttributeKey::EpeDefenseUp => "epe_defense_up"@,
        AttributeKey::CritChanceRatio => "crit_chance_ratio"@,
        AttributeKey::CritDamageRatio => "crit_damage_ratio"@,
        AttributeKey::MaxShield => "max_shield"@,
        AttributeKey::ShieldSpeed => "shield_speed"@,
        AttributeKey::PhyBreakUp => "phy_break_up"@,
        AttributeKey::ElmBreakUp => "elm_break_up"@,
        AttributeKey::SpeBreakUp => "spe_break_up"@,
    }
}

impl AttributeKey {
    /// The key that `name` spells; `InvalidLabel` where it spells none.
    pub fn decode_label(name: &String) -> (r: Result<AttributeKey, DecodeError>)
        ensures
            r matches Ok(k) ==> attribute_name(k) == name@,
            r is Err <==> forall|k: AttributeKey| attribute_name(k) != name@,
            r is Err ==> r == Err::<AttributeKey, DecodeError>(DecodeError::InvalidLabel),
    {
        if *name == "max_health".to_owned() {
            assert(attribute_name(AttributeKey::MaxHealth) == name@);
            return Ok(AttributeKey::MaxHealth);
        }
        if *name == "health_cure_ratio".to_owned() {
            assert(attribute_name(AttributeKey::HealthCureRatio) == name@);
            return Ok(AttributeKey::HealthCureRatio);
        }
        if *name == "attack".to_owned() {
            assert(attribute_name(AttributeKey::Attack) == name@);
            return Ok(AttributeKey::Attack);
        }
        if *name == "attack_up".to_owned() {
            assert(attribute_name(AttributeKey::AttackUp) == name@);
            return Ok(AttributeKey::AttackUp);
        }
        if *name == "phy_attack".to_owned() {
            assert(attribute_name(AttributeKey::PhyAttack) == name@);
            return Ok(AttributeKey::PhyAttack);
        }
        if *name == "phy_attack_up".to_owned() {
            assert(attribute_name(AttributeKey::PhyAttackUp) == name@);
            return Ok(AttributeKey::PhyAttackUp);
        }
        if *name == "elm_attack".to_owned() {
            assert(attribute_name(AttributeKey::ElmAttack) == name@);
            return Ok(AttributeKey::ElmAttack);
        }
        if *name == "elm_attack_up".to_owned() {
            assert(attribute_name(AttributeKey::ElmAttackUp) == name@);
            return Ok(AttributeKey::ElmAttackUp);
        }
        if *name == "spe_attack".to_owned() {
            assert(attribute_name(AttributeKey::SpeAttack) == name@);
            return Ok(AttributeKey::SpeAttack);
        }
        if *name == "spe_attack_up".to_owned() {
            assert(attribute_name(AttributeKey::SpeAttackUp) == name@);
            return Ok(AttributeKey::SpeAttackUp);
        }
        if *name == "defense".to_owned() {
            assert(attribute_name(AttributeKey::Defense) == name@);
            return Ok(AttributeKey::Defense);
        }
        if *name == "defense_up".to_owned() {
            assert(attribute_name(AttributeKey::DefenseUp) == name@);
            return Ok(AttributeKey::DefenseUp);
        }
        if *name == "phy_defense".to_owned() {
            assert(attribute_name(AttributeKey::PhyDefense) == name@);
            return Ok(AttributeKey::PhyDefense);
        }
        if *name == "phy_defense_up".to_owned() {
            assert(attribute_name(AttributeKey::PhyDefenseUp) == name@);
            return Ok(AttributeKey::PhyDefenseUp);
        }
        if *name == "elm_defense".to_owned() {
            assert(attribute_name(AttributeKey::ElmDefense) == name@);
            return Ok(AttributeKey::ElmDefense);
        }
        if *name == "elm_defense_up".to_owned() {
            assert(attribute_name(AttributeKey::ElmDefenseUp) == name@);
            return Ok(AttributeKey::ElmDefenseUp);
        }
        if *name == "spe_defense".to_owned() {
            assert(attribute_name(AttributeKey::SpeDefense) == name@);
            return Ok(AttributeKey::SpeDefense);
        }
        if *name == "epe_defense_up".to_owned() {
            assert(attribute_name(AttributeKey::EpeDefenseUp) == name@);
            return Ok(AttributeKey::EpeDefenseUp);
        }
        if *name == "crit_chance_ratio".to_owned() {
            assert(attribute_name(AttributeKey::CritChanceRatio) == name@);
            return Ok(AttributeKey::CritChanceRatio);
        }
        if *name == "crit_damage_ratio".to_owned() {
            assert(attribute_name(AttributeKey::CritDamageRatio) == name@);
            return Ok(AttributeKey::CritDamageRatio);
        }
        if *name == "max_shield".to_owned() {
            assert(attribute_name(AttributeKey::MaxShield) == name@);
            return Ok(AttributeKey::MaxShield);
        }
        if *name == "shield_speed".to_owned() {
            assert(attribute_name(AttributeKey::ShieldSpeed) == name@);
            return Ok(AttributeKey::ShieldSpeed);
        }
        if *name == "phy_break_up".to_owned() {
            assert(attribute_name(AttributeKey::PhyBreakUp) == name@);
            return Ok(AttributeKey::PhyBreakUp);
        }
        if *name == "elm_break_up".to_owned() {
            assert(attribute_name(AttributeKey::ElmBreakUp) == name@);
            return Ok(AttributeKey::ElmBreakUp);
        }
        if *name == "spe_break_up".to_owned() {
            assert(attribute_name(AttributeKey::SpeBreakUp) == name@);
            return Ok(AttributeKey::SpeBreakUp);
        }
        proof {
            assert forall|k: AttributeKey| attribute_name(k) != name@ by {
                match k {
                    _ => {},
                }
            }
        }
        Err(DecodeError::InvalidLabel)
    }
}

/// Class of one slot in a character-coded table.
#[derive(Debug, Clone, Copy, PartialEq, Eq, Structural)]
pub enum SlotClass {
    Attack,
    Health,
    General,
}

/// The slot class that a code character stands for.
pub open spec fn code_class(c: char) -> Option<SlotClass> {
    if c == 'A' {
        Some(SlotClass::Attack)
    } else if c == 'H' {
        Some(SlotClass::Health)
    } else if c == 'G' {
        Some(SlotClass::General)
    } else {
        None
    }
}

impl SlotClass {
    /// `A`, `H` and `G` stand for attack, health and general slots; no other
    /// character is a slot code.
    pub fn from_code(c: char) -> (r: Option<SlotClass>)
        ensures
            r == code_class(c),
    {
        if c == 'A' {
            Some(SlotClass::Attack)
        } else if c == 'H' {
            Some(SlotClass::Health)
        } else if c == 'G' {
            Some(SlotClass::General)
        } else {
            None
        }
    }
}

/// The first fault among the first `k` codes pushed onto a list that already holds
/// `len0` items, with capacity `cap`, at index `idx`.
pub open spec fn codes_fault(len0: int, cap: int, idx: u16, codes: Seq<char>, k: nat) -> Option<DecodeError>
    decreases k,
{
    if k == 0 {
        None
    } else {
        match codes_fault(len0, cap, idx, codes, (k - 1) as nat) {
            Some(e) => Some(e),
            None => if code_class(codes[k - 1]) is None {
                Some(DecodeError::InvalidItem)
            } else if len0 + (k - 1) >= cap {
                Some(DecodeError::CapacityOverflow(idx))
            } else {
                None
            },
        }
    }
}

/// The slot classes of `codes`, where every code is known.
pub open spec fn code_classes(codes: Seq<char>) -> Seq<SlotClass> {
    codes.map_values(|c: char| code_class(c)->Some_0)
}

proof fn lemma_codes_fault_sticks(len0: int, cap: int, idx: u16, codes: Seq<char>, k: nat, n: nat)
    requires
        k <= n,
        codes_fault(len0, cap, idx, codes, k) is Some,
    ensures
        codes_fault(len0, cap, idx, codes, n) == codes_fault(len0, cap, idx, codes, k),
    decreases n - k,
{
    if n > k {
        lemma_codes_fault_sticks(len0, cap, idx, codes, k, (n - 1) as nat);
    }
}

/// Appends to the list opened last one slot per character of `codes`, in order.
/// Stops at the first character that is no slot code (`InvalidItem`) or the first
/// that finds the list full (`CapacityOverflow`).
pub fn push_codes(b: &mut TableBuilder<(), SlotClass>, codes: &Vec<char>) -> (r: Result<(), DecodeError>)
    requires
        old(b).wf(),
        old(b).spec_opened() > 0,
    ensures
        final(b).wf(),
        final(b).spec_opened() == old(b).spec_opened(),
        final(b).spec_table().spec_list_cnt() == old(b).spec_table().spec_list_cnt(),
        final(b).spec_table().spec_list_cap() == old(b).spec_table().spec_list_cap(),
        ({
            let idx = old(b).spec_opened() - 1;
            let list = old(b).spec_table()@[idx];
            match codes_fault(list.1.len() as int, old(b).spec_table().spec_list_cap() as int, idx as u16, codes@, codes@.len()) {
                Some(e) => r == Err::<(), DecodeError>(e),
                None => {
                    &&& r is Ok
                    &&& final(b).spec_table()@ == old(b).spec_table()@.update(
                        idx,
                        (list.0, list.1 + code_classes(codes@)),
                    )
                },
            }
        }),
{
    let ghost idx = old(b).spec_opened() - 1;
    let ghost list = old(b).spec_table()@[idx];
    let ghost cap = old(b).spec_table().spec_list_cap() as int;
    proof {
        old(b).lemma_wf();
        old(b).spec_table().lemma_wf_view();
    }
    let mut k: usize = 0;
    while k < codes.len()
        invariant
            idx == old(b).spec_opened() - 1,
            list == old(b).spec_table()@[idx],
            cap == old(b).spec_table().spec_list_cap(),
            0 <= idx < old(b).spec_table()@.len(),
            k <= codes.len(),
            b.wf(),
            b.spec_opened() == old(b).spec_opened(),
            b.spec_table().spec_list_cnt() == old(b).spec_table().spec_list_cnt(),
            b.spec_table().spec_list_cap() == old(b).spec_table().spec_list_cap(),
            codes_fault(list.1.len() as int, cap, idx as u16, codes@, k as nat) is None,
            b.spec_table()@ == old(b).spec_table()@.update(
                idx,
                (list.0, list.1 + code_classes(codes@.subrange(0, k as int))),
            ),
        decreases codes.len() - k,
    {
        let c = codes[k];
        let class = match SlotClass::from_code(c) {
            Some(v) => v,
            None => {
                proof {
                    lemma_codes_fault_sticks(list.1.len() as int, cap, idx as u16, codes@, (k + 1) as nat, codes@.len());
                }
                return Err(DecodeError::InvalidItem);
            },
        };
        let ghost before = b.spec_table()@;
        match b.push(class) {
            Ok(_) => {},
            Err(e) => {
                proof {
                    assert(before[idx].1 == list.1 + code_classes(codes@.subrange(0, k as int)));
                    lemma_codes_fault_sticks(list.1.len() as int, cap, idx as u16, codes@, (k + 1) as nat, codes@.len());
                }
                return Err(e);
            },
        }
        proof {
            assert(before[idx].1 == list.1 + code_classes(codes@.subrange(0, k as int)));
            assert(code_classes(codes@.subrange(0, k as int)).push(class) =~= code_classes(codes@.subrange(0, (k + 1) as int)));
            assert(b.spec_table()@ =~= old(b).spec_table()@.update(
                idx,
                (list.0, list.1 + code_classes(codes@.subrange(0, (k + 1) as int))),
            ));
        }
        k = k + 1;
    }
    proof {
        assert(codes@.subrange(0, codes@.len() as int) =~= codes@);
    }
    Ok(())
}

} // verus!
