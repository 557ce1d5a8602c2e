use vstd::prelude::*;

verus! {

/// What must be recomputed for a flow: one flag per independent effect.
#[derive(Clone, Copy, Debug, PartialEq, Eq, Structural)]
pub struct RestyleDamage {
    /// The flow must be painted again.
    pub repaint: bool,
    /// Preferred and intrinsic widths must be bubbled up again.
    pub bubble_widths: bool,
    /// Widths, heights and positions must be solved again.
    pub reflow: bool,
}

/// Set union of two damage sets, effect by effect.
pub open spec fn damage_union(a: RestyleDamage, b: RestyleDamage) -> RestyleDamage {
    RestyleDamage {
        repaint: a.repaint || b.repaint,
        bubble_widths: a.bubble_widths || b.bubble_widths,
        reflow: a.reflow || b.reflow,
    }
}

/// Every effect of `a` is an effect of `b`.
pub open spec fn damage_subset(a: RestyleDamage, b: RestyleDamage) -> bool {
    (a.repaint ==> b.repaint) && (a.bubble_widths ==> b.bubble_widths) && (a.reflow ==> b.reflow)
}

/// The empty damage set.
pub open spec fn no_damage() -> RestyleDamage {
    RestyleDamage { repaint: false, bubble_widths: false, reflow: false }
}

/// The complete damage set.
pub open spec fn all_damage() -> RestyleDamage {
    RestyleDamage { repaint: true, bubble_widths: true, reflow: true }
}

/// What a parent must recompute because of a child's damage: a change of a
/// child's intrinsic widths changes the widths its ancestors bubble.
pub open spec fn up_image(d: RestyleDamage) -> RestyleDamage {
    RestyleDamage { repaint: false, bubble_widths: d.bubble_widths, reflow: false }
}

/// What a child must recompute because of its parent's damage: a parent
/// that reflows hands its children new available widths.
pub open spec fn down_image(d: RestyleDamage) -> RestyleDamage {
    RestyleDamage { repaint: false, bubble_widths: false, reflow: d.reflow }
}

impl RestyleDamage {
    /// The empty damage set.
    pub fn none() -> (r: RestyleDamage)
        ensures
            r == no_damage(),
    {
        RestyleDamage { repaint: false, bubble_widths: false, reflow: false }
    }

    /// The complete damage set.
    pub fn all() -> (r: RestyleDamage)
        ensures
            r == all_damage(),
    {
        RestyleDamage { repaint: true, bubble_widths: true, reflow: true }
    }

    /// The union of `self` and `other`.
    pub fn union(self, other: RestyleDamage) -> (r: RestyleDamage)
        ensures
            r == damage_union(self, other),
    {
        RestyleDamage {
            repaint: self.repaint || other.repaint,
            bubble_widths: self.bubble_widths || other.bubble_widths,
            reflow: self.reflow || other.reflow,
        }
    }

    /// Adds every effect of `other` to `self`.
    pub fn union_in_place(&mut self, other: RestyleDamage)
        ensures
            *final(self) == damage_union(*old(self), other),
    {
        *self = self.union(other);
    }

    /// True when no effect is set.
    pub fn is_empty(self) -> (r: bool)
        ensures
            r == (self == no_damage()),
    {
        !self.repaint && !self.bubble_widths && !self.reflow
    }

    /// True when every effect of `other` is set in `self`.
    pub fn contains(self, other: RestyleDamage) -> (r: bool)
        ensures
            r == damage_subset(other, self),
    {
        (!other.repaint || self.repaint) && (!other.bubble_widths || self.bubble_widths) && (
        !other.reflow || self.reflow)
    }

    /// The damage a parent takes on from this damage of one of its children.
    pub fn propagate_up(self) -> (r: RestyleDamage)
        ensures
            r == up_image(self),
    {
        RestyleDamage { repaint: false, bubble_widths: self.bubble_widths, reflow: false }
    }

    /// The damage a child takes on from this damage of its parent.
    pub fn propagate_down(self) -> (r: RestyleDamage)
        ensures
            r == down_image(self),
    {
        RestyleDamage { repaint: false, bubble_widths: false, reflow: self.reflow }
    }
}

/// Union of damage sets is commutative.
pub proof fn lemma_union_commutative(a: RestyleDamage, b: RestyleDamage)
    ensures
        damage_union(a, b) == damage_union(b, a),
{
}

/// Union of damage sets is associative.
pub proof fn lemma_union_associative(a: RestyleDamage, b: RestyleDamage, c: RestyleDamage)
    ensures
        damage_union(damage_union(a, b), c) == damage_union(a, damage_union(b, c)),
{
}

/// Union of damage sets is idempotent: adding the same effects twice adds
/// them once.
pub proof fn lemma_union_idempotent(a: RestyleDamage, b: RestyleDamage)
    ensures
        damage_union(a, a) == a,
        damage_union(damage_union(a, b), b) == damage_union(a, b),
{
}

/// The union holds both operands and nothing else.
pub proof fn lemma_union_is_least_upper_bound(a: RestyleDamage, b: RestyleDamage, c: RestyleDamage)
    ensures
        damage_subset(a, damage_union(a, b)),
        damage_subset(b, damage_union(a, b)),
        damage_subset(a, c) && damage_subset(b, c) ==> damage_subset(damage_union(a, b), c),
{
}

} // verus!
