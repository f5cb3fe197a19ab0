use vstd::prelude::*;

verus! {

/// The discrete state of one site.
#[derive(Debug, Clone, Copy, PartialEq, Eq, Structural)]
pub enum State {
    /// Dormant: not reached by growth yet.
    Dormant,
    /// Growing; the number of steps completed since the site became live.
    Live(usize),
    /// A finished segment of the network; the index of its downstream child.
    Path(usize),
    /// Growth ended here, for good.
    Dead,
    /// A permanent obstacle.
    Wall,
}

/// The state of a site together with the neighbor that made it live.
#[derive(Debug, Clone, Copy, PartialEq, Eq, Structural)]
pub struct Property {
    pub state: State,
    pub parent: Option<usize>,
}

/// One entry of an interpolation weight list: a site index and its weight, in
/// fixed point (the weights of one list sum to the fixed-point unit).
#[derive(Debug, Clone, Copy, PartialEq, Eq, Structural)]
pub struct Weight {
    pub index: usize,
    pub weight: u64,
}

impl Weight {
    pub fn new(index: usize, weight: u64) -> (r: Weight)
        ensures
            r == (Weight { index, weight }),
    {
        Weight { index, weight }
    }
}

/// A vector with one amount per state variant: a one-hot encoding of a single
/// state, or a weighted blend of several.
#[derive(Debug, Clone, Copy, PartialEq, Eq, Structural)]
pub struct NumericProperty {
    pub state_none: u128,
    pub state_live: u128,
    pub state_path: u128,
    pub state_dead: u128,
    pub state_wall: u128,
}

/// The position of a state's variant among the five components.
pub open spec fn category(s: State) -> int {
    match s {
        State::Dormant => 0,
        State::Live(_) => 1,
        State::Path(_) => 2,
        State::Dead => 3,
        State::Wall => 4,
    }
}

/// Component `c` of a numeric property, in the order none, live, path, dead, wall.
pub open spec fn component(p: NumericProperty, c: int) -> int {
    if c == 0 {
        p.state_none as int
    } else if c == 1 {
        p.state_live as int
    } else if c == 2 {
        p.state_path as int
    } else if c == 3 {
        p.state_dead as int
    } else if c == 4 {
        p.state_wall as int
    } else {
        0
    }
}

/// The sum of the five components.
pub open spec fn total(p: NumericProperty) -> int {
    component(p, 0) + component(p, 1) + component(p, 2) + component(p, 3) + component(p, 4)
}

/// The one-hot encoding of a state: 1 in its own component, 0 elsewhere.
pub open spec fn one_hot(s: State) -> NumericProperty {
    NumericProperty {
        state_none: if category(s) == 0 { 1 } else { 0 },
        state_live: if category(s) == 1 { 1 } else { 0 },
        state_path: if category(s) == 2 { 1 } else { 0 },
        state_dead: if category(s) == 3 { 1 } else { 0 },
        state_wall: if category(s) == 4 { 1 } else { 0 },
    }
}

/// The one-hot encoding of any state has components that sum to exactly 1.
pub proof fn lemma_one_hot_total(s: State)
    ensures
        total(one_hot(s)) == 1,
        forall|c: int| 0 <= c < 5 ==> component(one_hot(s), c) == if c == category(s) { 1int } else { 0int },
{
}

impl From<Property> for NumericProperty {
    fn from(prop: Property) -> (r: NumericProperty) {
        match prop.state {
            State::Dormant => NumericProperty { state_none: 1, state_live: 0, state_path: 0, state_dead: 0, state_wall: 0 },
            State::Live(_) => NumericProperty { state_none: 0, state_live: 1, state_path: 0, state_dead: 0, state_wall: 0 },
            State::Path(_) => NumericProperty { state_none: 0, state_live: 0, state_path: 1, state_dead: 0, state_wall: 0 },
            State::Dead => NumericProperty { state_none: 0, state_live: 0, state_path: 0, state_dead: 1, state_wall: 0 },
            State::Wall => NumericProperty { state_none: 0, state_live: 0, state_path: 0, state_dead: 0, state_wall: 1 },
        }
    }
}

impl vstd::std_specs::convert::FromSpecImpl<Property> for NumericProperty {
    open spec fn obeys_from_spec() -> bool {
        true
    }

    open spec fn from_spec(prop: Property) -> NumericProperty {
        one_hot(prop.state)
    }
}

impl NumericProperty {
    /// The component-wise sum.
    pub fn add(&self, other: &Self) -> (r: Self)
        requires
            forall|c: int| 0 <= c < 5 ==> component(*self, c) + component(*other, c) <= u128::MAX,
        ensures
            forall|c: int| 0 <= c < 5 ==> component(r, c) == component(*self, c) + component(*other, c),
    {
        assert(component(*self, 0) + component(*other, 0) <= u128::MAX);
        assert(component(*self, 1) + component(*other, 1) <= u128::MAX);
        assert(component(*self, 2) + component(*other, 2) <= u128::MAX);
        assert(component(*self, 3) + component(*other, 3) <= u128::MAX);
        assert(component(*self, 4) + component(*other, 4) <= u128::MAX);
        NumericProperty {
            state_none: self.state_none + other.state_none,
            state_live: self.state_live + other.state_live,
            state_path: self.state_path + other.state_path,
            state_dead: self.state_dead + other.state_dead,
            state_wall: self.state_wall + other.state_wall,
        }
    }

    /// Every component scaled by `w`.
    pub fn mul_scala(&self, w: u64) -> (r: Self)
        requires
            forall|c: int| 0 <= c < 5 ==> component(*self, c) * w <= u128::MAX,
        ensures
            forall|c: int| 0 <= c < 5 ==> component(r, c) == component(*self, c) * w,
    {
        assert(component(*self, 0) * w <= u128::MAX);
        assert(component(*self, 1) * w <= u128::MAX);
        assert(component(*self, 2) * w <= u128::MAX);
        assert(component(*self, 3) * w <= u128::MAX);
        assert(component(*self, 4) * w <= u128::MAX);
        let w: u128 = w as u128;
        NumericProperty {
            state_none: self.state_none * w,
            state_live: self.state_live * w,
            state_path: self.state_path * w,
            state_dead: self.state_dead * w,
            state_wall: self.state_wall * w,
        }
    }
}

/// The weight that the entries of `ws` give to sites whose state in `props`
/// falls in component `c`: component `c` of the weighted blend.
pub open spec fn weight_on(ws: Seq<Weight>, props: Seq<Property>, c: int) -> int
    decreases ws.len(),
{
    if ws.len() == 0 {
        0
    } else {
        let last = ws.last();
        weight_on(ws.drop_last(), props, c) + if category(props[last.index as int].state) == c {
            last.weight as int
        } else {
            0
        }
    }
}

/// The weighted blend of the one-hot states of the sites that `ws` names.
pub open spec fn blend(ws: Seq<Weight>, props: Seq<Property>) -> NumericProperty {
    NumericProperty {
        state_none: weight_on(ws, props, 0) as u128,
        state_live: weight_on(ws, props, 1) as u128,
        state_path: weight_on(ws, props, 2) as u128,
        state_dead: weight_on(ws, props, 3) as u128,
        state_wall: weight_on(ws, props, 4) as u128,
    }
}

/// The sum of the weights of `ws`.
pub open spec fn weight_total(ws: Seq<Weight>) -> int
    decreases ws.len(),
{
    if ws.len() == 0 {
        0
    } else {
        weight_total(ws.drop_last()) + ws.last().weight as int
    }
}

/// The blend of one-hot states by a weight list spreads exactly the list's
/// total weight over the five components: where the weights sum to the unit,
/// so does the blend.
pub proof fn lemma_blend_total(ws: Seq<Weight>, props: Seq<Property>)
    ensures
        weight_on(ws, props, 0) + weight_on(ws, props, 1) + weight_on(ws, props, 2)
            + weight_on(ws, props, 3) + weight_on(ws, props, 4) == weight_total(ws),
    decreases ws.len(),
{
    if ws.len() > 0 {
        lemma_blend_total(ws.drop_last(), props);
    }
}

/// Each component of the blend lies between 0 and `len * u64::MAX`.
pub proof fn lemma_weight_on_bound(ws: Seq<Weight>, props: Seq<Property>, c: int)
    ensures
        0 <= weight_on(ws, props, c) <= ws.len() * (u64::MAX as int),
    decreases ws.len(),
{
    if ws.len() > 0 {
        lemma_weight_on_bound(ws.drop_last(), props, c);
        assert(ws.len() * (u64::MAX as int) == (ws.len() - 1) * (u64::MAX as int) + u64::MAX as int)
            by (nonlinear_arith);
    }
}

} // verus!
