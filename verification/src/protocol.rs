//! What holds of every run of a binding cache.

use vstd::prelude::*;
use crate::decl::BindingView;
use crate::engine::{
    call_step, event_step, well_formed, BindErrorView, CacheView, CommandView, EventView,
    StageView,
};
use crate::group::GroupView;
use crate::identity::loader_name_of;

verus! {

/// One thing that happens to a cache: a call to a function of its group, or a
/// report from its driver.
pub enum Input {
    Call(usize),
    Report(EventView),
}

/// What one input does to a cache, and what the driver is told.
pub open spec fn step(cache: CacheView, input: Input) -> (CacheView, CommandView) {
    match input {
        Input::Call(index) => call_step(cache, index),
        Input::Report(event) => event_step(cache, event),
    }
}

/// The cache after a run of inputs.
pub open spec fn run(cache: CacheView, inputs: Seq<Input>) -> CacheView
    decreases inputs.len(),
{
    if inputs.len() == 0 {
        cache
    } else {
        step(run(cache, inputs.drop_last()), inputs.last()).0
    }
}

/// What the driver is told in the course of a run of inputs.
pub open spec fn commands(cache: CacheView, inputs: Seq<Input>) -> Seq<CommandView>
    decreases inputs.len(),
{
    if inputs.len() == 0 {
        Seq::empty()
    } else {
        commands(cache, inputs.drop_last()).push(
            step(run(cache, inputs.drop_last()), inputs.last()).1,
        )
    }
}

/// How often the driver is told to open the library.
pub open spec fn opens(told: Seq<CommandView>) -> nat {
    told.filter(|command: CommandView| command is Open).len()
}

/// How often the driver is told to resolve a symbol.
pub open spec fn lookups(told: Seq<CommandView>) -> nat {
    told.filter(|command: CommandView| command is Resolve).len()
}

/// How many symbols a cache has still to ask for.
pub open spec fn lookups_ahead(cache: CacheView) -> nat {
    match cache.stage {
        StageView::Uninitialized => cache.group.bindings.len(),
        StageView::Opening(_) => cache.group.bindings.len(),
        StageView::Resolving(_, addresses) => (cache.group.bindings.len() - addresses.len()
            - 1) as nat,
        StageView::Ready(_) => 0,
        StageView::Failed(_) => 0,
    }
}

/// A step keeps a consistent cache consistent and leaves its group alone.
pub proof fn lemma_step_keeps_form(cache: CacheView, input: Input)
    requires
        well_formed(cache),
    ensures
        well_formed(step(cache, input).0),
        step(cache, input).0.group == cache.group,
{
}

/// A run keeps a consistent cache consistent and leaves its group alone.
pub proof fn lemma_run_keeps_form(cache: CacheView, inputs: Seq<Input>)
    requires
        well_formed(cache),
    ensures
        well_formed(run(cache, inputs)),
        run(cache, inputs).group == cache.group,
    decreases inputs.len(),
{
    if inputs.len() > 0 {
        lemma_run_keeps_form(cache, inputs.drop_last());
        lemma_step_keeps_form(run(cache, inputs.drop_last()), inputs.last());
    }
}

/// A cache never goes back: once the initialisation has begun it is not
/// uninitialised again, and a ready or failed cache stays as it is.
pub proof fn lemma_run_is_monotone(cache: CacheView, inputs: Seq<Input>)
    requires
        well_formed(cache),
    ensures
        !(cache.stage is Uninitialized) ==> !(run(cache, inputs).stage is Uninitialized),
        cache.stage is Ready || cache.stage is Failed ==> run(cache, inputs) == cache,
    decreases inputs.len(),
{
    if inputs.len() > 0 {
        lemma_run_is_monotone(cache, inputs.drop_last());
        lemma_run_keeps_form(cache, inputs.drop_last());
    }
}

/// Initialisation runs at most once: whatever calls and reports come in, and
/// however many, the driver of a group is told to open the library at most
/// once, and never again after the first call.
pub proof fn lemma_opened_at_most_once(cache: CacheView, inputs: Seq<Input>)
    requires
        well_formed(cache),
    ensures
        opens(commands(cache, inputs)) <= 1,
        !(cache.stage is Uninitialized) ==> opens(commands(cache, inputs)) == 0,
        opens(commands(cache, inputs)) == 1 ==> !(run(cache, inputs).stage is Uninitialized),
    decreases inputs.len(),
{
    reveal_with_fuel(Seq::filter, 1);
    if inputs.len() > 0 {
        let front = inputs.drop_last();
        lemma_opened_at_most_once(cache, front);
        lemma_run_keeps_form(cache, front);
        lemma_run_is_monotone(cache, front);
        let told = commands(cache, inputs);
        assert(told.drop_last() =~= commands(cache, front));
    }
}

/// A run in two parts: the second part starts from the cache that the first
/// part leaves, and the driver is told what it is told in the first part and
/// then what it is told in the second.
pub proof fn lemma_run_in_parts(cache: CacheView, first: Seq<Input>, second: Seq<Input>)
    ensures
        run(cache, first + second) == run(run(cache, first), second),
        commands(cache, first + second) == commands(cache, first) + commands(
            run(cache, first),
            second,
        ),
    decreases second.len(),
{
    if second.len() == 0 {
        assert(first + second =~= first);
        assert(commands(cache, first) + commands(run(cache, first), second) =~= commands(
            cache,
            first,
        ));
    } else {
        lemma_run_in_parts(cache, first, second.drop_last());
        assert((first + second).drop_last() =~= first + second.drop_last());
        assert((first + second).last() == second.last());
        assert(commands(cache, first + second) =~= commands(cache, first) + commands(
            run(cache, first),
            second,
        ));
    }
}

/// Initialisation runs exactly once: the first call to a function of a fresh
/// group whose identity names a library has the library opened, and however
/// many calls and reports follow, it is not opened a second time.
pub proof fn lemma_opened_exactly_once(group: GroupView, index: usize, later: Seq<Input>)
    requires
        loader_name_of(group.identity) is Some,
        index < group.bindings.len(),
    ensures
        opens(
            commands(
                CacheView { group, stage: StageView::Uninitialized },
                seq![Input::Call(index)] + later,
            ),
        ) == 1,
{
    let fresh = CacheView { group, stage: StageView::Uninitialized };
    let call = seq![Input::Call(index)];
    let name = loader_name_of(group.identity)->0;
    assert(call.drop_last() =~= Seq::<Input>::empty());
    assert(run(fresh, call.drop_last()) == fresh);
    assert(commands(fresh, call.drop_last()) =~= Seq::<CommandView>::empty());
    assert(call.last() == Input::Call(index));
    assert(run(fresh, call) == CacheView { group, stage: StageView::Opening(index) });
    assert(commands(fresh, call) =~= seq![CommandView::Open(name)]);
    lemma_run_in_parts(fresh, call, later);
    lemma_opened_at_most_once(run(fresh, call), later);
    let opening = |command: CommandView| command is Open;
    Seq::filter_distributes_over_add(
        commands(fresh, call),
        commands(run(fresh, call), later),
        opening,
    );
    reveal_with_fuel(Seq::filter, 2);
    assert(commands(fresh, call).drop_last() =~= Seq::<CommandView>::empty());
}

/// Each symbol is asked for at most once: in any run the driver is told to
/// resolve at most as many symbols as the cache has still to ask for, which
/// for a fresh cache is the number of functions in its group.
pub proof fn lemma_resolved_at_most_once(cache: CacheView, inputs: Seq<Input>)
    requires
        well_formed(cache),
    ensures
        lookups(commands(cache, inputs)) + lookups_ahead(run(cache, inputs)) <= lookups_ahead(
            cache,
        ),
    decreases inputs.len(),
{
    reveal_with_fuel(Seq::filter, 1);
    if inputs.len() > 0 {
        let front = inputs.drop_last();
        lemma_resolved_at_most_once(cache, front);
        lemma_run_keeps_form(cache, front);
        let told = commands(cache, inputs);
        assert(told.drop_last() =~= commands(cache, front));
    }
}

/// An address is handed out only by a cache that holds one for every function
/// of its group.
pub proof fn lemma_invoke_needs_all(cache: CacheView, input: Input)
    requires
        well_formed(cache),
    ensures
        step(cache, input).1 is Invoke ==> step(cache, input).0.stage is Ready && step(
            cache,
            input,
        ).0.stage->Ready_0.len() == cache.group.bindings.len(),
{
}

/// All or nothing: when one symbol cannot be resolved, though others of the
/// same library were, the group fails as a whole. From then on, whatever
/// happens, a call to any of its functions is rejected with the same failure,
/// and nothing is opened or resolved again.
pub proof fn lemma_all_or_nothing(
    cache: CacheView,
    text: Seq<char>,
    later: Seq<Input>,
    first: usize,
    second: usize,
)
    requires
        well_formed(cache),
        cache.stage is Resolving,
        first < cache.group.bindings.len(),
        second < cache.group.bindings.len(),
    ensures
        ({
            let failed = event_step(cache, EventView::ResolveFailed(text)).0;
            let failure = BindErrorView::Symbol(cache.stage->Resolving_1.len() as usize, text);
            &&& failed.stage == StageView::Failed(failure)
            &&& run(failed, later) == failed
            &&& call_step(run(failed, later), first) == (failed, CommandView::Reject(failure))
            &&& call_step(run(failed, later), second) == (failed, CommandView::Reject(failure))
            &&& opens(commands(failed, later)) == 0
            &&& lookups(commands(failed, later)) == 0
        }),
{
    let failed = event_step(cache, EventView::ResolveFailed(text)).0;
    lemma_run_is_monotone(failed, later);
    lemma_opened_at_most_once(failed, later);
    lemma_resolved_at_most_once(failed, later);
}

/// A library that cannot be opened fails its group in the same way: every
/// later call to any of its functions is rejected with the same failure.
pub proof fn lemma_load_failure_is_final(
    cache: CacheView,
    text: Seq<char>,
    later: Seq<Input>,
    index: usize,
)
    requires
        well_formed(cache),
        cache.stage is Opening,
        index < cache.group.bindings.len(),
    ensures
        ({
            let failed = event_step(cache, EventView::OpenFailed(text)).0;
            &&& failed.stage == StageView::Failed(BindErrorView::Load(text))
            &&& run(failed, later) == failed
            &&& call_step(run(failed, later), index) == (
                failed,
                CommandView::Reject(BindErrorView::Load(text)),
            )
        }),
{
    let failed = event_step(cache, EventView::OpenFailed(text)).0;
    lemma_run_is_monotone(failed, later);
}

/// The symbols of the functions of a group, in order.
pub open spec fn symbols_of(group: GroupView) -> Seq<Seq<u8>> {
    group.bindings.map_values(|binding: BindingView| binding.symbol)
}

/// The inputs of a first call to the function at position `index` when the
/// library opens and the first `count` symbols resolve to these addresses.
pub open spec fn first_call(index: usize, addresses: Seq<usize>, count: int) -> Seq<Input> {
    seq![Input::Call(index), Input::Report(EventView::Opened)] + addresses.take(count).map_values(
        |address: usize| Input::Report(EventView::Resolved(address)),
    )
}

/// The commands of a first call up to the request for the symbol at position
/// `count - 1`.
pub open spec fn first_commands(name: Seq<char>, group: GroupView, count: int) -> Seq<
    CommandView,
> {
    seq![CommandView::Open(name)] + symbols_of(group).take(count).map_values(
        |symbol: Seq<u8>| CommandView::Resolve(symbol),
    )
}

/// While the symbols of a first call resolve, the cache asks for them one
/// after the other, in the order of declaration.
pub proof fn lemma_first_call_resolving(
    group: GroupView,
    name: Seq<char>,
    index: usize,
    addresses: Seq<usize>,
    count: int,
)
    requires
        loader_name_of(group.identity) == Some(name),
        index < group.bindings.len(),
        addresses.len() == group.bindings.len(),
        0 <= count < addresses.len(),
    ensures
        ({
            let fresh = CacheView { group, stage: StageView::Uninitialized };
            &&& run(fresh, first_call(index, addresses, count)) == CacheView {
                group,
                stage: StageView::Resolving(index, addresses.take(count)),
            }
            &&& commands(fresh, first_call(index, addresses, count)) == first_commands(
                name,
                group,
                count + 1,
            )
        }),
    decreases count,
{
    let fresh = CacheView { group, stage: StageView::Uninitialized };
    let inputs = first_call(index, addresses, count);
    if count == 0 {
        let call = seq![Input::Call(index)];
        assert(inputs =~= seq![Input::Call(index), Input::Report(EventView::Opened)]);
        assert(inputs.drop_last() =~= call);
        assert(call.drop_last() =~= Seq::<Input>::empty());
        assert(run(fresh, call.drop_last()) == fresh);
        assert(commands(fresh, call.drop_last()) =~= Seq::<CommandView>::empty());
        assert(call.last() == Input::Call(index));
        assert(step(fresh, Input::Call(index)) == call_step(fresh, index));
        assert(run(fresh, call) == CacheView { group, stage: StageView::Opening(index) });
        assert(commands(fresh, call) =~= seq![CommandView::Open(name)]);
        assert(addresses.take(0) =~= Seq::<usize>::empty());
        assert(commands(fresh, inputs) =~= first_commands(name, group, 1));
    } else {
        lemma_first_call_resolving(group, name, index, addresses, count - 1);
        let before = first_call(index, addresses, count - 1);
        assert(inputs.drop_last() =~= before);
        assert(inputs.last() == Input::Report(EventView::Resolved(addresses[count - 1])));
        assert(addresses.take(count - 1).push(addresses[count - 1]) =~= addresses.take(count));
        assert(commands(fresh, inputs) =~= first_commands(name, group, count + 1));
    }
}

/// The first call into a group succeeds where the library opens and holds
/// every declared symbol: the library is opened under the name that the
/// identity gives, a full name as it is; every symbol is asked for once, in
/// the order of declaration; the caller is then handed the address that was
/// reported for its own function; and every later call to a function of the
/// group is handed the address reported for that function, with nothing
/// opened or resolved again.
pub proof fn lemma_first_call_succeeds(
    group: GroupView,
    name: Seq<char>,
    index: usize,
    addresses: Seq<usize>,
    later: usize,
)
    requires
        loader_name_of(group.identity) == Some(name),
        index < group.bindings.len(),
        later < group.bindings.len(),
        addresses.len() == group.bindings.len(),
    ensures
        ({
            let fresh = CacheView { group, stage: StageView::Uninitialized };
            let inputs = first_call(index, addresses, addresses.len() as int);
            let ready = CacheView { group, stage: StageView::Ready(addresses) };
            &&& run(fresh, inputs) == ready
            &&& commands(fresh, inputs) == first_commands(
                name,
                group,
                addresses.len() as int,
            ).push(CommandView::Invoke(addresses[index as int]))
            &&& call_step(ready, later) == (ready, CommandView::Invoke(addresses[later as int]))
        }),
{
    let fresh = CacheView { group, stage: StageView::Uninitialized };
    let count = addresses.len() as int;
    let inputs = first_call(index, addresses, count);
    lemma_first_call_resolving(group, name, index, addresses, count - 1);
    let before = first_call(index, addresses, count - 1);
    assert(inputs.drop_last() =~= before);
    assert(inputs.last() == Input::Report(EventView::Resolved(addresses[count - 1])));
    assert(addresses.take(count - 1).push(addresses[count - 1]) =~= addresses);
    assert(addresses.take(count) =~= addresses);
}

} // verus!
