//! Injections: literal texts that are set into an expanded string at given
//! offsets, past the rewriting rules.

use crate::outside::push_char;
use crate::renderer::injection_views;
use crate::text::to_chars;
use vstd::prelude::*;
use vstd::string::StringExecFns;

verus! {

/// The texts that are injected at `offset`, one after the other in the order
/// of the list.
pub open spec fn inserted_at(injections: Seq<(u32, Seq<char>)>, offset: int) -> Seq<char>
    decreases injections.len(),
{
    if injections.len() == 0 {
        Seq::empty()
    } else if injections.last().0 == offset {
        inserted_at(injections.drop_last(), offset) + injections.last().1
    } else {
        inserted_at(injections.drop_last(), offset)
    }
}

/// The patched form of the first `n` symbols of `text`: before each symbol
/// stand the texts that are injected at its offset.
pub open spec fn patched_prefix(text: Seq<char>, injections: Seq<(u32, Seq<char>)>, n: int) -> Seq<
    char,
>
    decreases n,
{
    if n <= 0 {
        Seq::empty()
    } else {
        patched_prefix(text, injections, n - 1) + inserted_at(injections, n - 1).push(text[n - 1])
    }
}

/// `text` with its injections: each text stands before the symbol at its
/// offset, or at the end where the offset is the length of `text`; texts
/// with the same offset keep the order of the list. An offset past the
/// length of `text` has no place, and its text does not appear.
pub open spec fn patched(text: Seq<char>, injections: Seq<(u32, Seq<char>)>) -> Seq<char> {
    patched_prefix(text, injections, text.len() as int) + inserted_at(
        injections,
        text.len() as int,
    )
}

/// Finds the injections that have a place in a text of `len` symbols, and
/// hands out their places in the list, sorted by their offsets; places of
/// one offset keep the order of the list.
fn sorted_places(injections: &Vec<(u32, String)>, len: usize) -> (places: Vec<usize>)
    ensures
        forall|k: int| 0 <= k < places@.len() ==> (#[trigger] places@[k]) < injections@.len(),
        is_ascending(chosen(injection_views(injections@), places@)),
        forall|k: int|
            0 <= k < places@.len() ==> (#[trigger] chosen(
                injection_views(injections@),
                places@,
            )[k]).0 <= len,
        forall|offset: int|
            0 <= offset <= len ==> inserted_at(
                chosen(injection_views(injections@), places@),
                offset,
            ) == inserted_at(injection_views(injections@), offset),
{
    let ghost views = injection_views(injections@);
    let mut places: Vec<usize> = Vec::new();
    let mut i: usize = 0;
    proof {
        assert(chosen(views, places@) =~= Seq::<(u32, Seq<char>)>::empty());
        assert(views.take(0) =~= Seq::<(u32, Seq<char>)>::empty());
    }
    while i < injections.len()
        invariant
            i <= injections.len(),
            views == injection_views(injections@),
            forall|k: int| 0 <= k < places@.len() ==> (#[trigger] places@[k]) < i,
            is_ascending(chosen(views, places@)),
            forall|k: int| 0 <= k < places@.len() ==> (#[trigger] chosen(views, places@)[k]).0 <= len,
            forall|offset: int|
                0 <= offset <= len ==> inserted_at(chosen(views, places@), offset) == inserted_at(
                    views.take(i as int),
                    offset,
                ),
        decreases injections.len() - i,
    {
        let offset: u32 = injections[i].0;
        let ghost before = chosen(views, places@);
        proof {
            assert(views.take(i + 1).drop_last() =~= views.take(i as int));
            assert(views.take(i + 1).last() == views[i as int]);
            assert forall|at: int| 0 <= at <= len implies inserted_at(before, at) == inserted_at(
                views.take(i as int),
                at,
            ) by {}
        }
        if offset as usize <= len {
            let mut j: usize = places.len();
            while j > 0 && injections[places[j - 1]].0 > offset
                invariant
                    j <= places@.len(),
                    views == injection_views(injections@),
                    before == chosen(views, places@),
                    offset == injections@[i as int].0,
                    i < injections@.len(),
                    forall|k: int| 0 <= k < places@.len() ==> (#[trigger] places@[k]) < i,
                    forall|k: int| j <= k < before.len() ==> (#[trigger] before[k]).0 > offset,
                decreases j,
            {
                j -= 1;
            }
            places.insert(j, i);
            proof {
                let after = chosen(views, places@);
                assert(after =~= before.insert(j as int, views[i as int]));
                assert forall|a: int, b: int| 0 <= a <= b < after.len() implies (
                #[trigger] after[a]).0 <= (#[trigger] after[b]).0 by {
                    if j > 0 {
                        assert(before[j - 1].0 <= offset);
                    }
                    if a < j && b < j {
                        assert(after[a] == before[a] && after[b] == before[b]);
                    } else if a < j && b == j {
                        assert(after[a] == before[a]);
                        assert(before[a].0 <= before[j - 1].0);
                    } else if a < j && b > j {
                        assert(after[a] == before[a] && after[b] == before[b - 1]);
                    } else if a == j && b > j {
                        assert(after[b] == before[b - 1]);
                    } else if a > j {
                        assert(after[a] == before[a - 1] && after[b] == before[b - 1]);
                    }
                }
                assert forall|k: int| 0 <= k < after.len() implies (#[trigger] after[k]).0
                    <= len by {
                    if k < j {
                        assert(after[k] == before[k]);
                    } else if k > j {
                        assert(after[k] == before[k - 1]);
                    }
                }
                assert forall|at: int| 0 <= at <= len implies inserted_at(after, at)
                    == inserted_at(views.take(i + 1), at) by {
                    assert(views[i as int].0 == offset);
                    lemma_inserted_at_insert(before, j as int, views[i as int], at);
                    assert(before.push(views[i as int]).drop_last() =~= before);
                    assert(before.push(views[i as int]).last() == views[i as int]);
                    assert(inserted_at(before, at) == inserted_at(views.take(i as int), at));
                }
            }
        }
        i += 1;
    }
    proof {
        assert(views.take(injections.len() as int) =~= views);
    }
    places
}

/// Adds to `out` the symbols of `symbols` from `from` up to `to`.
fn copy_symbols(out: &mut String, symbols: &[char], from: usize, to: usize)
    requires
        from <= to <= symbols@.len(),
    ensures
        final(out)@ == old(out)@ + symbols@.subrange(from as int, to as int),
{
    let ghost before = out@;
    let mut i: usize = from;
    proof {
        assert(before + symbols@.subrange(from as int, from as int) =~= before);
    }
    while i < to
        invariant
            from <= i <= to,
            to <= symbols@.len(),
            out@ == before + symbols@.subrange(from as int, i as int),
        decreases to - i,
    {
        push_char(out, symbols[i]);
        assert(before + symbols@.subrange(from as int, i + 1) =~= (before + symbols@.subrange(
            from as int,
            i as int,
        )).push(symbols@[i as int]));
        i += 1;
    }
}

/// Sets the injections into `expanded`. Offsets count characters. The
/// injections whose offset lies past the end of `expanded` are left out; the
/// others are sorted by their offsets, those with the same offset in the
/// order of the list; then the text is made of the symbols up to each
/// offset and the text that is injected there.
pub fn apply(expanded: &str, injections: &Vec<(u32, String)>) -> (result: String)
    ensures
        result@ == patched(expanded@, injection_views(injections@)),
{
    let symbols = to_chars(expanded);
    let places = sorted_places(injections, symbols.len());
    let ghost views = injection_views(injections@);
    let ghost list = chosen(views, places@);
    let mut out = String::new();
    let mut cursor: usize = 0;
    let mut k: usize = 0;
    proof {
        assert(list.take(0) =~= Seq::<(u32, Seq<char>)>::empty());
        assert(out@ =~= patched_prefix(symbols@, list.take(0), 0) + inserted_at(list.take(0), 0));
    }
    while k < places.len()
        invariant
            k <= places@.len(),
            cursor <= symbols@.len(),
            symbols@ == expanded@,
            views == injection_views(injections@),
            list == chosen(views, places@),
            is_ascending(list),
            forall|m: int| 0 <= m < places@.len() ==> (#[trigger] places@[m]) < injections@.len(),
            forall|m: int| 0 <= m < list.len() ==> (#[trigger] list[m]).0 <= symbols@.len(),
            forall|m: int| 0 <= m < k ==> (#[trigger] list[m]).0 <= cursor,
            forall|m: int| k <= m < list.len() ==> (#[trigger] list[m]).0 >= cursor,
            out@ == patched_prefix(symbols@, list.take(k as int), cursor as int) + inserted_at(
                list.take(k as int),
                cursor as int,
            ),
        decreases places@.len() - k,
    {
        let place = places[k];
        let offset: usize = injections[place].0 as usize;
        let ghost done = list.take(k as int);
        let ghost more = list.take(k + 1);
        proof {
            assert(list[k as int] == views[place as int]);
            assert(more.drop_last() =~= done);
            assert(more.last() == list[k as int]);
            assert forall|at: int| 0 <= at < offset implies inserted_at(more, at) == inserted_at(
                done,
                at,
            ) by {}
            lemma_prefix_depends_on_inserted(symbols@, more, done, cursor as int);
            if cursor < offset {
                assert forall|m: int| 0 <= m < more.len() implies !(cursor < (
                #[trigger] more[m]).0 < offset) by {
                    if m < k {
                        assert(more[m] == list[m]);
                    }
                }
                lemma_prefix_over_gap(symbols@, more, cursor as int, offset as int);
                assert forall|m: int| 0 <= m < done.len() implies (#[trigger] done[m]).0
                    != offset by {
                    assert(done[m] == list[m]);
                }
                lemma_nothing_inserted(done, offset as int);
            }
        }
        copy_symbols(&mut out, symbols.as_slice(), cursor, offset);
        out.append(injections[place].1.as_str());
        proof {
            let text = symbols@;
            if cursor < offset {
                assert(out@ =~= patched_prefix(text, more, offset as int) + inserted_at(
                    more,
                    offset as int,
                ));
            } else {
                assert(text.subrange(cursor as int, offset as int) =~= Seq::<char>::empty());
                assert(out@ =~= patched_prefix(text, more, offset as int) + inserted_at(
                    more,
                    offset as int,
                ));
            }
            assert forall|m: int| 0 <= m < k + 1 implies (#[trigger] list[m]).0 <= offset by {
                assert(list[m].0 <= list[k as int].0);
            }
            assert forall|m: int| k + 1 <= m < list.len() implies (#[trigger] list[m]).0
                >= offset by {
                assert(list[k as int].0 <= list[m].0);
            }
        }
        cursor = offset;
        k += 1;
    }
    proof {
        let text = symbols@;
        assert(list.take(places@.len() as int) =~= list);
        if cursor < symbols.len() {
            assert forall|m: int| 0 <= m < list.len() implies !(cursor < (#[trigger] list[m]).0
                < text.len()) by {}
            lemma_prefix_over_gap(text, list, cursor as int, text.len() as int);
            assert forall|m: int| 0 <= m < list.len() implies (#[trigger] list[m]).0
                != text.len() by {}
            lemma_nothing_inserted(list, text.len() as int);
        } else {
            assert(text.subrange(cursor as int, text.len() as int) =~= Seq::<char>::empty());
        }
    }
    copy_symbols(&mut out, symbols.as_slice(), cursor, symbols.len());
    proof {
        let text = symbols@;
        assert(out@ =~= patched(text, list));
        assert forall|at: int| 0 <= at < text.len() implies inserted_at(list, at) == inserted_at(
            views,
            at,
        ) by {}
        lemma_prefix_depends_on_inserted(text, list, views, text.len() as int);
    }
    out
}

/// Without injections the text stays as it is.
pub proof fn lemma_patched_without_injections(text: Seq<char>)
    ensures
        patched(text, Seq::empty()) == text,
{
    lemma_prefix_without_injections(text, text.len() as int);
    assert(text.take(text.len() as int) =~= text);
    assert(patched(text, Seq::empty()) =~= text);
}

proof fn lemma_prefix_without_injections(text: Seq<char>, n: int)
    requires
        0 <= n <= text.len(),
    ensures
        patched_prefix(text, Seq::empty(), n) == text.take(n),
    decreases n,
{
    if n > 0 {
        lemma_prefix_without_injections(text, n - 1);
        assert(patched_prefix(text, Seq::empty(), n) =~= text.take(n));
    } else {
        assert(patched_prefix(text, Seq::empty(), n) =~= text.take(n));
    }
}

/// An injection past the end of the text changes nothing: the patched text
/// is that of the list without it.
pub proof fn lemma_patched_drops_far_injection(
    text: Seq<char>,
    injections: Seq<(u32, Seq<char>)>,
    at: int,
)
    requires
        0 <= at < injections.len(),
        injections[at].0 > text.len(),
    ensures
        patched(text, injections) == patched(text, injections.remove(at)),
{
    assert forall|offset: int| 0 <= offset <= text.len() implies inserted_at(injections, offset)
        == inserted_at(injections.remove(at), offset) by {
        lemma_inserted_at_without(injections, at, offset);
    }
    lemma_prefix_depends_on_inserted(text, injections, injections.remove(at), text.len() as int);
}

/// Taking out an injection with another offset leaves what is injected at
/// `offset`.
pub proof fn lemma_inserted_at_without(injections: Seq<(u32, Seq<char>)>, at: int, offset: int)
    requires
        0 <= at < injections.len(),
        injections[at].0 != offset,
    ensures
        inserted_at(injections, offset) == inserted_at(injections.remove(at), offset),
    decreases injections.len(),
{
    if at == injections.len() - 1 {
        assert(injections.remove(at) =~= injections.drop_last());
    } else {
        lemma_inserted_at_without(injections.drop_last(), at, offset);
        assert(injections.remove(at).drop_last() =~= injections.drop_last().remove(at));
        assert(injections.remove(at).last() == injections.last());
    }
}

/// The patched text is made of the text and of what is injected at each of
/// its offsets, and of nothing else.
pub proof fn lemma_prefix_depends_on_inserted(
    text: Seq<char>,
    first: Seq<(u32, Seq<char>)>,
    second: Seq<(u32, Seq<char>)>,
    n: int,
)
    requires
        0 <= n <= text.len(),
        forall|offset: int|
            0 <= offset < n ==> inserted_at(first, offset) == inserted_at(second, offset),
    ensures
        patched_prefix(text, first, n) == patched_prefix(text, second, n),
    decreases n,
{
    if n > 0 {
        lemma_prefix_depends_on_inserted(text, first, second, n - 1);
    }
}

/// A run of injections with two neighbours in each other's place.
pub open spec fn swapped(injections: Seq<(u32, Seq<char>)>, at: int) -> Seq<(u32, Seq<char>)> {
    injections.update(at, injections[at + 1]).update(at + 1, injections[at])
}

/// Two neighbours with different offsets can change places without a change
/// to what is injected at any offset.
pub proof fn lemma_inserted_at_swapped(
    injections: Seq<(u32, Seq<char>)>,
    at: int,
    offset: int,
)
    requires
        0 <= at,
        at + 1 < injections.len(),
        injections[at].0 != injections[at + 1].0,
    ensures
        inserted_at(swapped(injections, at), offset) == inserted_at(injections, offset),
    decreases injections.len(),
{
    let other = swapped(injections, at);
    if at + 2 == injections.len() {
        let front = injections.drop_last().drop_last();
        let none = Seq::<char>::empty();
        assert(other.drop_last().drop_last() =~= front);
        assert(other.last() == injections[at]);
        assert(other.drop_last().last() == injections[at + 1]);
        assert(injections.drop_last().last() == injections[at]);
        assert(injections.last() == injections[at + 1]);
        assert(inserted_at(front, offset) + none =~= inserted_at(front, offset));
        if injections[at].0 == offset {
            assert(inserted_at(other.drop_last(), offset) == inserted_at(front, offset));
            assert(inserted_at(injections.drop_last(), offset) == inserted_at(front, offset)
                + injections[at].1);
        } else if injections[at + 1].0 == offset {
            assert(inserted_at(other.drop_last(), offset) == inserted_at(front, offset)
                + injections[at + 1].1);
            assert(inserted_at(injections.drop_last(), offset) == inserted_at(front, offset));
        } else {
            assert(inserted_at(other.drop_last(), offset) == inserted_at(front, offset));
            assert(inserted_at(injections.drop_last(), offset) == inserted_at(front, offset));
        }
    } else {
        lemma_inserted_at_swapped(injections.drop_last(), at, offset);
        assert(other.drop_last() =~= swapped(injections.drop_last(), at));
        assert(other.last() == injections.last());
    }
}

/// Only the order among injections with the same offset counts: two
/// neighbours with different offsets can change places, so that the patched
/// text is that of the injections sorted by their offsets, each group of one
/// offset in the order of the list.
pub proof fn lemma_patched_swapped(text: Seq<char>, injections: Seq<(u32, Seq<char>)>, at: int)
    requires
        0 <= at,
        at + 1 < injections.len(),
        injections[at].0 != injections[at + 1].0,
    ensures
        patched(text, swapped(injections, at)) == patched(text, injections),
{
    assert forall|offset: int| 0 <= offset <= text.len() implies inserted_at(
        swapped(injections, at),
        offset,
    ) == inserted_at(injections, offset) by {
        lemma_inserted_at_swapped(injections, at, offset);
    }
    lemma_prefix_depends_on_inserted(
        text,
        swapped(injections, at),
        injections,
        text.len() as int,
    );
}

/// The injections that a list of places picks, in the order of the places.
pub open spec fn chosen(injections: Seq<(u32, Seq<char>)>, places: Seq<usize>) -> Seq<
    (u32, Seq<char>),
> {
    Seq::new(places.len(), |k: int| injections[places[k] as int])
}

/// The offsets of a run of injections do not fall.
pub open spec fn is_ascending(injections: Seq<(u32, Seq<char>)>) -> bool {
    forall|i: int, j: int|
        0 <= i <= j < injections.len() ==> (#[trigger] injections[i]).0 <= (
        #[trigger] injections[j]).0
}

/// An injection can be set into a run before injections with other offsets
/// as well as at its end: what is injected at any offset is the same.
pub proof fn lemma_inserted_at_insert(
    injections: Seq<(u32, Seq<char>)>,
    at: int,
    injection: (u32, Seq<char>),
    offset: int,
)
    requires
        0 <= at <= injections.len(),
        forall|k: int| at <= k < injections.len() ==> (#[trigger] injections[k]).0 != injection.0,
    ensures
        inserted_at(injections.insert(at, injection), offset) == inserted_at(
            injections.push(injection),
            offset,
        ),
    decreases injections.len() - at,
{
    let with = injections.insert(at, injection);
    if at == injections.len() {
        assert(with =~= injections.push(injection));
    } else {
        let front = injections.drop_last();
        let last = injections.last();
        assert(injections[injections.len() - 1] == last);
        assert(with.drop_last() =~= front.insert(at, injection));
        assert(with.last() == last);
        assert forall|k: int| at <= k < front.len() implies (#[trigger] front[k]).0
            != injection.0 by {
            assert(front[k] == injections[k]);
        }
        lemma_inserted_at_insert(front, at, injection, offset);
        assert(front.push(injection).drop_last() =~= front);
        assert(front.push(injection).last() == injection);
        assert(injections.push(injection).drop_last() =~= injections);
        assert(injections.push(injection).last() == injection);
        let base = inserted_at(front, offset);
        let none = Seq::<char>::empty();
        assert(base + none =~= base);
        assert(last.0 != injection.0);
        if injection.0 == offset {
            assert(inserted_at(front.push(injection), offset) == base + injection.1);
            assert(inserted_at(injections, offset) == base);
            assert(inserted_at(with, offset) == base + injection.1);
        } else if last.0 == offset {
            assert(inserted_at(front.push(injection), offset) == base);
            assert(inserted_at(injections, offset) == base + last.1);
            assert(inserted_at(with, offset) == base + last.1);
        } else {
            assert(inserted_at(front.push(injection), offset) == base);
            assert(inserted_at(injections, offset) == base);
        }
    }
}

/// Nothing is injected at an offset that no injection has.
pub proof fn lemma_nothing_inserted(injections: Seq<(u32, Seq<char>)>, offset: int)
    requires
        forall|k: int| 0 <= k < injections.len() ==> (#[trigger] injections[k]).0 != offset,
    ensures
        inserted_at(injections, offset) == Seq::<char>::empty(),
    decreases injections.len(),
{
    if injections.len() > 0 {
        assert(injections[injections.len() - 1] == injections.last());
        assert forall|k: int| 0 <= k < injections.drop_last().len() implies (
        #[trigger] injections.drop_last()[k]).0 != offset by {
            assert(injections.drop_last()[k] == injections[k]);
        }
        lemma_nothing_inserted(injections.drop_last(), offset);
    }
}

/// Where nothing is injected between two offsets, the patched text up to
/// the second is the patched text up to the first, what is injected at the
/// first, and the symbols between the two.
pub proof fn lemma_prefix_over_gap(
    text: Seq<char>,
    injections: Seq<(u32, Seq<char>)>,
    from: int,
    to: int,
)
    requires
        0 <= from < to <= text.len(),
        forall|k: int|
            0 <= k < injections.len() ==> !(from < (#[trigger] injections[k]).0 < to),
    ensures
        patched_prefix(text, injections, to) == patched_prefix(text, injections, from)
            + inserted_at(injections, from) + text.subrange(from, to),
    decreases to - from,
{
    if to == from + 1 {
        assert(text.subrange(from, to) =~= seq![text[from]]);
        assert(patched_prefix(text, injections, to) =~= patched_prefix(text, injections, from)
            + inserted_at(injections, from) + text.subrange(from, to));
    } else {
        lemma_prefix_over_gap(text, injections, from, to - 1);
        assert forall|k: int| 0 <= k < injections.len() implies (#[trigger] injections[k]).0 != to
            - 1 by {}
        lemma_nothing_inserted(injections, to - 1);
        assert(text.subrange(from, to) =~= text.subrange(from, to - 1).push(text[to - 1]));
        assert(patched_prefix(text, injections, to) =~= patched_prefix(text, injections, from)
            + inserted_at(injections, from) + text.subrange(from, to));
    }
}

} // verus!
