//! Lists with other lists spread out in them.

use vstd::prelude::*;

verus! {

/// A part of a list: one value, or several of them that are to be expanded in its place.
pub enum Spread<T> {
    One(T),
    Many(Vec<T>),
}

impl<T> Spread<T> {
    /// The values of the part, in order.
    pub open spec fn values(self) -> Seq<T> {
        match self {
            Spread::One(value) => seq![value],
            Spread::Many(values) => values@,
        }
    }
}

/// The values of all parts, in order.
pub open spec fn spread_out<T>(parts: Seq<Spread<T>>) -> Seq<T>
    decreases parts.len(),
{
    if parts.len() == 0 {
        Seq::empty()
    } else {
        parts[0].values() + spread_out(parts.drop_first())
    }
}

/// A list of the values of all parts, with nested lists inlined and expanded.
pub fn spread<T>(parts: Vec<Spread<T>>) -> (list: Vec<T>)
    ensures
        list@ == spread_out(parts@),
{
    let mut list: Vec<T> = Vec::new();
    let mut rest = parts;
    while rest.len() > 0
        invariant
            list@ + spread_out(rest@) == spread_out(parts@),
        decreases rest.len(),
    {
        let ghost (before, done) = (rest@, list@);
        let part = rest.remove(0);
        assert(rest@ =~= before.drop_first());
        match part {
            Spread::One(value) => list.push(value),
            Spread::Many(mut values) => list.append(&mut values),
        }
        assert(list@ =~= done + part.values());
        assert(list@ + spread_out(rest@) =~= done + (part.values() + spread_out(rest@)));
    }
    assert(list@ + spread_out(rest@) =~= list@);
    list
}

/// Parts followed by other parts make the list of the first followed by that of the others.
pub proof fn spread_distributes<T>(first: Seq<Spread<T>>, second: Seq<Spread<T>>)
    ensures
        spread_out(first + second) == spread_out(first) + spread_out(second),
    decreases first.len(),
{
    if first.len() == 0 {
        assert(first + second =~= second);
        assert(spread_out(first) + spread_out(second) =~= spread_out(second));
    } else {
        assert((first + second).drop_first() =~= first.drop_first() + second);
        spread_distributes(first.drop_first(), second);
        assert(first[0].values() + (spread_out(first.drop_first()) + spread_out(second))
            =~= first[0].values() + spread_out(first.drop_first()) + spread_out(second));
    }
}

/// Single values make the list of these values.
pub proof fn single_values_are_kept<T>(values: Seq<T>)
    ensures
        spread_out(Seq::new(values.len(), |i: int| Spread::One(values[i]))) == values,
    decreases values.len(),
{
    let parts = Seq::new(values.len(), |i: int| Spread::One(values[i]));
    if values.len() > 0 {
        let rest = values.drop_first();
        assert(parts.drop_first() =~= Seq::new(rest.len(), |i: int| Spread::One(rest[i])));
        single_values_are_kept(rest);
        assert(seq![values[0]] + rest =~= values);
    }
}

/// One part makes the list of its values.
pub proof fn one_part_is_expanded<T>(value: T, values: Vec<T>)
    ensures
        spread_out(Seq::<Spread<T>>::empty()) == Seq::<T>::empty(),
        spread_out(seq![Spread::One(value)]) == seq![value],
        spread_out(seq![Spread::Many(values)]) == values@,
{
    reveal_with_fuel(spread_out, 2);
    assert(seq![Spread::One(value)].drop_first() =~= Seq::empty());
    assert(seq![Spread::Many(values)].drop_first() =~= Seq::empty());
    assert(spread_out(seq![Spread::One(value)]) =~= seq![value]);
    assert(spread_out(seq![Spread::Many(values)]) =~= values@);
}

} // verus!
