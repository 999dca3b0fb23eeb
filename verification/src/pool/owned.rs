//! How a pool is made for a configuration.
use std::sync::Arc;

use atomicmonitor::AtomMonitor;
use vstd::prelude::*;

use crate::bits;
use crate::channel::BitAssigner;
use crate::pool;
use crate::pool::layout;
use crate::pool::layout::{Level, LevelBuilder};
use crate::pool::lifecycle::{LifecycleExchange, LifecycleHandle, SharedLifecycle};
use crate::pool::{
    plan_schedule, ChannelParams, LifecycleState, NewPoolError, Pool, PoolBehavior, PoolConfig,
    PriorityLevel, WorkerSchedule,
};
use crate::shared::{new_monitor, CellStart, MonitorStart, SharedCounter, SharedField};

verus! {

/// The shared data of a pool, and what its workers have to do.
pub struct OwnedPool<Behavior: PoolBehavior> {
    pub pool: Pool<Behavior>,
    /// What the owner closes the pool with
    pub lifecycle: LifecycleHandle,
    /// Worker thread count
    pub threads: u32,
    /// What each worker does
    pub work: WorkerSchedule,
    /// How the values that the workers share started
    pub started: PoolStart,
}

/// How the values that the workers of a pool share started.
pub struct PoolStart {
    pub lifecycle_state: CellStart<LifecycleState>,
    pub present_field: MonitorStart,
    pub close_counter: MonitorStart,
}

impl PoolStart {
    /// Whether `pool` started to run, with no task present and none counted.
    pub open spec fn of<Behavior: PoolBehavior>(&self, pool: Pool<Behavior>) -> bool {
        &&& self.lifecycle_state.of(pool.lifecycle_state.cell(), LifecycleState::Running)
        &&& self.present_field.of(pool.field(), 0)
        &&& self.close_counter.of(pool.close_counter.counter(), 0)
    }
}

/// Whether `levels` and `levels_shutdown` are what `config` asks for, when channel `c` of level `l`
/// claims `widths[l][c]` bits of the present field, and `mask` holds the bits of all the channels
/// which are completed on close.
pub open spec fn pool_laid<Behavior: PoolBehavior>(
    config: Seq<PriorityLevel<Behavior>>,
    widths: Seq<Seq<nat>>,
    levels: Seq<Level<Behavior::ChannelKey>>,
    levels_shutdown: Seq<Level<Behavior::ChannelKey>>,
    mask: u64,
) -> bool {
    &&& widths.len() == config.len()
    &&& levels.len() == config.len()
    &&& levels_shutdown.len() == config.len()
    &&& layout::level_start(widths, config.len()) <= 64
    &&& forall|l: int|
        0 <= l < config.len() ==> {
            &&& (#[trigger] levels[l]).wf()
            &&& layout::laid(
                config[l].0@,
                layout::level_start(widths, l as nat),
                widths[l],
                levels[l].channels@,
            )
        }
    &&& forall|l: int|
        0 <= l < config.len() ==> {
            &&& (#[trigger] levels_shutdown[l]).wf()
            &&& levels_shutdown[l].channels@ == layout::completing(
                config[l].0@,
                levels[l].channels@,
            )
        }
    &&& forall|i: int| #[trigger]
        bits::has_bit(mask, i) <==> exists|l: int|
            0 <= l < levels_shutdown.len() && bits::has_bit((#[trigger] levels_shutdown[l]).mask, i)
}

/// Whether the channels that `params` ask for claim `widths[c]` bits of `field` each, one after the
/// other, the first of them bit `start`, and take `behavior` to `next`.
pub open spec fn level_granted<Behavior: PoolBehavior>(
    params: Seq<ChannelParams<Behavior>>,
    behavior: Behavior,
    next: Behavior,
    field: AtomMonitor<u64>,
    start: nat,
    widths: Seq<nat>,
) -> bool
    decreases params.len(),
{
    if params.len() == 0 {
        next == behavior && widths.len() == 0
    } else {
        widths.len() == params.len() && exists|asked: Behavior|
            {
                &&& level_granted(
                    params.drop_last(),
                    behavior,
                    asked,
                    field,
                    start,
                    widths.drop_last(),
                )
                &&& #[trigger] asked.claimed(
                    next,
                    params.last().key,
                    field,
                    start + layout::sum(widths.drop_last()),
                    start + layout::sum(widths),
                    true,
                )
            }
    }
}

/// Whether one of the channels that `params` ask for is refused a bit of `field`, after those before
/// it have claimed theirs, the first of them bit `start`.
pub open spec fn level_refused<Behavior: PoolBehavior>(
    params: Seq<ChannelParams<Behavior>>,
    behavior: Behavior,
    field: AtomMonitor<u64>,
    start: nat,
) -> bool {
    exists|c: int, asked: Behavior, next: Behavior, widths: Seq<nat>, until: nat|
        {
            &&& 0 <= c < params.len()
            &&& #[trigger] level_granted(
                params.take(c),
                behavior,
                asked,
                field,
                start,
                widths,
            )
            &&& #[trigger] asked.claimed(
                next,
                params[c].key,
                field,
                start + layout::sum(widths),
                until,
                false,
            )
        }
}

/// Whether the channels that `config` asks for claim `widths[l][c]` bits of `field` each, level by
/// level, and take `behavior` to `next`.
pub open spec fn pool_granted<Behavior: PoolBehavior>(
    config: Seq<PriorityLevel<Behavior>>,
    behavior: Behavior,
    next: Behavior,
    field: AtomMonitor<u64>,
    widths: Seq<Seq<nat>>,
) -> bool
    decreases config.len(),
{
    if config.len() == 0 {
        next == behavior && widths.len() == 0
    } else {
        widths.len() == config.len() && exists|asked: Behavior|
            {
                &&& pool_granted(
                    config.drop_last(),
                    behavior,
                    asked,
                    field,
                    widths.drop_last(),
                )
                &&& #[trigger] level_granted(
                    config.last().0@,
                    asked,
                    next,
                    field,
                    layout::level_start(widths.drop_last(), (config.len() - 1) as nat),
                    widths.last(),
                )
            }
    }
}

/// Whether one of the channels that `config` asks for is refused a bit of `field`, after those before
/// it have claimed theirs.
pub open spec fn pool_refused<Behavior: PoolBehavior>(
    config: Seq<PriorityLevel<Behavior>>,
    behavior: Behavior,
    field: AtomMonitor<u64>,
) -> bool {
    exists|l: int, asked: Behavior, widths: Seq<Seq<nat>>|
        {
            &&& 0 <= l < config.len()
            &&& #[trigger] pool_granted(config.take(l), behavior, asked, field, widths)
            &&& level_refused(
                config[l].0@,
                asked,
                field,
                layout::level_start(widths, l as nat),
            )
        }
}

impl<Behavior: PoolBehavior> Pool<Behavior> {
    /// The present field.
    pub open spec fn field(&self) -> AtomMonitor<u64> {
        self.present_field.field()
    }

    /// Whether this pool is what `config` asks for, when channel `c` of level `l` claims
    /// `widths[l][c]` bits of the present field.
    pub open spec fn laid_for(&self, config: Seq<PriorityLevel<Behavior>>, widths: Seq<Seq<nat>>) -> bool {
        pool_laid(
            config,
            widths,
            self.levels@,
            self.levels_shutdown@,
            self.complete_shutdown_mask,
        )
    }
}

/// Whether the level in `builder` is the one that `params` ask for, when its channels claim the
/// bits of `field` from `from` up to, but not including, `until`, and take `behavior` to `next`.
pub open spec fn level_claimed<Behavior: PoolBehavior>(
    params: Seq<ChannelParams<Behavior>>,
    behavior: Behavior,
    next: Behavior,
    field: AtomMonitor<u64>,
    from: nat,
    until: nat,
    earlier: u64,
    builder: LevelBuilder<Behavior>,
) -> bool {
    exists|widths: Seq<nat>|
        {
            &&& #[trigger] layout::level_built(params, from, widths, earlier, builder)
            &&& level_granted(params, behavior, next, field, from, widths)
            &&& until == from + layout::sum(widths)
        }
}

/// Build one level, both normal and shutdown simultaneously. Each channel claims its status bits
/// in turn.
fn build_level<Behavior: PoolBehavior>(
    behavior: &mut Behavior,
    params: &Vec<ChannelParams<Behavior>>,
    assigner: &mut BitAssigner,
    complete_shutdown_mask: u64,
) -> (r: Result<LevelBuilder<Behavior>, NewPoolError>)
    requires
        old(assigner).index() <= 64,
    ensures
        final(assigner).index() <= 64,
        final(assigner).field() == old(assigner).field(),
        r matches Ok(builder) ==> level_claimed(
            params@,
            *old(behavior),
            *final(behavior),
            old(assigner).field(),
            old(assigner).index(),
            final(assigner).index(),
            complete_shutdown_mask,
            builder,
        ),
        r matches Err(error) ==> error == NewPoolError::Over64Channels && level_refused(
            params@,
            *old(behavior),
            old(assigner).field(),
            old(assigner).index(),
        ),
{
    let mut builder: LevelBuilder<Behavior> = LevelBuilder::new(complete_shutdown_mask);
    let ghost mut widths: Seq<nat> = Seq::empty();
    let ghost start = assigner.index();
    let mut c: usize = 0;
    proof {
        assert(params@.take(0) =~= Seq::empty());
        assert(builder.level_shutdown.channels@ =~= layout::completing(
            params@.take(0),
            builder.level.channels@,
        ));
        assert forall|i: int| !#[trigger] bits::has_bit(builder.level_shutdown.mask, i) by {}
    }
    while c < params.len()
        invariant
            c <= params.len(),
            start == old(assigner).index(),
            start + layout::sum(widths) == assigner.index(),
            assigner.index() <= 64,
            assigner.field() == old(assigner).field(),
            layout::level_built(
                params@.take(c as int),
                start,
                widths,
                complete_shutdown_mask,
                builder,
            ),
            level_granted(
                params@.take(c as int),
                *old(behavior),
                *behavior,
                assigner.field(),
                start,
                widths,
            ),
        decreases params.len() - c,
    {
        let bit_from: usize = assigner.current_index();
        let ghost asked = *behavior;
        match behavior.assign_channel_bits(params[c].key, assigner) {
            Ok(()) => {},
            Err(_) => {
                assert(asked.claimed(
                    *behavior,
                    params@[c as int].key,
                    assigner.field(),
                    start + layout::sum(widths),
                    assigner.index(),
                    false,
                ));
                return Err(NewPoolError::Over64Channels);
            },
        }
        let bit_until: usize = assigner.current_index();
        let ghost before = builder;
        let channel = builder.place(&params[c], bit_from, bit_until);
        proof {
            layout::lemma_level_built_push(
                params@,
                start,
                widths,
                complete_shutdown_mask,
                before,
                c as int,
                channel,
                (bit_until - bit_from) as nat,
                builder,
            );
            let wider = widths.push((bit_until - bit_from) as nat);
            assert(params@.take(c + 1).drop_last() =~= params@.take(c as int));
            assert(wider.drop_last() =~= widths);
            assert(asked.claimed(
                *behavior,
                params@.take(c + 1).last().key,
                assigner.field(),
                start + layout::sum(wider.drop_last()),
                start + layout::sum(wider),
                true,
            ));
            assert(level_granted(
                params@.take(c + 1),
                *old(behavior),
                *behavior,
                assigner.field(),
                start,
                wider,
            ));
            widths = wider;
        }
        c = c + 1;
    }
    proof {
        assert(params@.take(c as int) =~= params@);
        assert(layout::level_built(params@, start, widths, complete_shutdown_mask, builder));
        assert(level_claimed(
            params@,
            *old(behavior),
            *behavior,
            assigner.field(),
            start,
            assigner.index(),
            complete_shutdown_mask,
            builder,
        ));
    }
    Ok(builder)
}

impl<Behavior: PoolBehavior> OwnedPool<Behavior> {
    /// Create a new pool.
    pub fn new(behavior: Behavior) -> (r: Result<Self, NewPoolError>)
        ensures
            exists|next: Behavior, config: PoolConfig<Behavior>| #[trigger]
                behavior.configured(next, config) && Self::made(next, config, r),
    {
        let mut behavior = behavior;
        let config = behavior.config();
        Self::from_config(behavior, config)
    }

    /// Whether `r` is what comes of making a pool for `config` in which the channels of `behavior`
    /// claim the status bits. The schedule is looked at when all of them have claimed theirs.
    pub open spec fn made(
        behavior: Behavior,
        config: PoolConfig<Behavior>,
        r: Result<Self, NewPoolError>,
    ) -> bool {
        match r {
            Ok(owned) => owned.made_for(behavior, config),
            Err(error) => exists|field: AtomMonitor<u64>| #[trigger]
                Self::failed(behavior, config, field, error),
        }
    }

    /// Whether making a pool for `config` over `field` fails with `error`.
    pub open spec fn failed(
        behavior: Behavior,
        config: PoolConfig<Behavior>,
        field: AtomMonitor<u64>,
        error: NewPoolError,
    ) -> bool {
        ||| error == NewPoolError::Over64Channels && pool_refused(config.levels@, behavior, field)
        ||| pool::schedule_fault(config.schedule, config.levels@.len(), error) && exists|
            next: Behavior,
            widths: Seq<Seq<nat>>,
        | #[trigger]
            pool_granted(config.levels@, behavior, next, field, widths)
    }

    /// Whether this is a fresh pool for `config`, in which the channels of `behavior` have claimed
    /// the status bits.
    pub open spec fn made_for(
        self,
        behavior: Behavior,
        config: PoolConfig<Behavior>,
    ) -> bool {
        &&& exists|widths: Seq<Seq<nat>>|
            {
                &&& #[trigger] self.pool.laid_for(config.levels@, widths)
                &&& pool_granted(
                    config.levels@,
                    behavior,
                    self.pool.behavior,
                    self.pool.field(),
                    widths,
                )
            }
        &&& self.pool.wf()
        &&& self.started.of(self.pool)
        &&& self.lifecycle.cell() == self.pool.lifecycle_state.cell()
        &&& self.lifecycle.state() == LifecycleState::Running
        &&& self.lifecycle.exchanges() == Seq::<LifecycleExchange>::empty()
        &&& self.threads == config.threads
        &&& pool::follows(self.work, config.schedule)
        &&& pool::schedule_valid(config.schedule, config.levels@.len())
    }

    /// Create a new pool for `config`, in which the channels of `behavior` claim the status bits.
    pub fn from_config(behavior: Behavior, config: PoolConfig<Behavior>) -> (r: Result<
        Self,
        NewPoolError,
    >)
        ensures
            Self::made(behavior, config, r),
    {
        let mut asked = behavior;
        let (field, present_start) = new_monitor(0);
        let present_field = Arc::new(field);
        let mut levels: Vec<Level<Behavior::ChannelKey>> = Vec::new();
        let mut levels_shutdown: Vec<Level<Behavior::ChannelKey>> = Vec::new();
        let mut complete_shutdown_mask: u64 = 0;
        let mut current_bit: usize = 0;
        let mut assigner = BitAssigner::new(&present_field, &mut current_bit);
        let ghost mut widths: Seq<Seq<nat>> = Seq::empty();
        let mut l: usize = 0;
        proof {
            assert(config.levels@.take(0) =~= Seq::empty());
            assert forall|i: int| !#[trigger] bits::has_bit(0, i) by {
                bits::lemma_zero_has_no_bit(i);
            }
        }
        while l < config.levels.len()
            invariant
                l <= config.levels.len(),
                assigner.index() == layout::level_start(widths, l as nat),
                assigner.index() <= 64,
                pool_laid(
                    config.levels@.take(l as int),
                    widths,
                    levels@,
                    levels_shutdown@,
                    complete_shutdown_mask,
                ),
                assigner.field() == *present_field,
                pool_granted(
                    config.levels@.take(l as int),
                    behavior,
                    asked,
                    *present_field,
                    widths,
                ),
            decreases config.levels.len() - l,
        {
            let ghost start = assigner.index();
            let ghost before = asked;
            let builder = match build_level(
                &mut asked,
                &config.levels[l].0,
                &mut assigner,
                complete_shutdown_mask,
            ) {
                Ok(builder) => builder,
                Err(error) => {
                    assert(Self::failed(behavior, config, *present_field, error));
                    return Err(error);
                },
            };
            let ghost level_widths = choose|level_widths: Seq<nat>|
                {
                    &&& #[trigger] layout::level_built(
                        config.levels@[l as int].0@,
                        start,
                        level_widths,
                        complete_shutdown_mask,
                        builder,
                    )
                    &&& level_granted(
                        config.levels@[l as int].0@,
                        before,
                        asked,
                        *present_field,
                        start,
                        level_widths,
                    )
                    &&& assigner.index() == start + layout::sum(level_widths)
                };
            proof {
                lemma_pool_laid_push(
                    config.levels@,
                    widths,
                    levels@,
                    levels_shutdown@,
                    complete_shutdown_mask,
                    l as int,
                    level_widths,
                    builder,
                );
                let wider = widths.push(level_widths);
                assert(config.levels@.take(l + 1).drop_last() =~= config.levels@.take(l as int));
                assert(wider.drop_last() =~= widths);
                assert(level_granted(
                    config.levels@.take(l + 1).last().0@,
                    before,
                    asked,
                    *present_field,
                    layout::level_start(wider.drop_last(), l as nat),
                    wider.last(),
                ));
                assert(pool_granted(
                    config.levels@.take(l + 1),
                    behavior,
                    asked,
                    *present_field,
                    wider,
                ));
                widths = wider;
            }
            levels.push(builder.level);
            levels_shutdown.push(builder.level_shutdown);
            complete_shutdown_mask = builder.complete_shutdown_mask;
            l = l + 1;
        }
        assert(config.levels@.take(l as int) =~= config.levels@);
        let work = match plan_schedule(&config.schedule, levels.len()) {
            Ok(work) => work,
            Err(error) => {
                assert(Self::failed(behavior, config, *present_field, error));
                return Err(error);
            },
        };
        let (lifecycle_state, lifecycle, lifecycle_start) = SharedLifecycle::new(
            LifecycleState::Running,
        );
        let (close_counter, counter_start) = SharedCounter::new(0);
        let pool = Pool {
            behavior: asked,
            lifecycle_state,
            present_field: SharedField::new(present_field),
            levels,
            levels_shutdown,
            complete_shutdown_mask,
            close_counter,
        };
        let started = PoolStart {
            lifecycle_state: lifecycle_start,
            present_field: present_start,
            close_counter: counter_start,
        };
        let owned = OwnedPool { pool, lifecycle, threads: config.threads, work, started };
        assert(owned.pool.laid_for(config.levels@, widths));
        assert(owned.made_for(behavior, config));
        Ok(owned)
    }
}

proof fn lemma_pool_laid_push<Behavior: PoolBehavior>(
    config: Seq<PriorityLevel<Behavior>>,
    widths: Seq<Seq<nat>>,
    levels: Seq<Level<Behavior::ChannelKey>>,
    levels_shutdown: Seq<Level<Behavior::ChannelKey>>,
    mask: u64,
    count: int,
    level_widths: Seq<nat>,
    builder: LevelBuilder<Behavior>,
)
    requires
        0 <= count < config.len(),
        pool_laid(config.take(count), widths, levels, levels_shutdown, mask),
        layout::level_built(
            config[count].0@,
            layout::level_start(widths, count as nat),
            level_widths,
            mask,
            builder,
        ),
        layout::level_start(widths, count as nat) + layout::sum(level_widths) <= 64,
    ensures
        pool_laid(
            config.take(count + 1),
            widths.push(level_widths),
            levels.push(builder.level),
            levels_shutdown.push(builder.level_shutdown),
            builder.complete_shutdown_mask,
        ),
        layout::level_start(widths.push(level_widths), (count + 1) as nat) == layout::level_start(
            widths,
            count as nat,
        ) + layout::sum(level_widths),
{
    let wider = widths.push(level_widths);
    let shut = levels_shutdown.push(builder.level_shutdown);
    let more = config.take(count + 1);
    assert forall|l: int| 0 <= l <= count implies #[trigger] layout::level_start(wider, l as nat)
        == layout::level_start(widths, l as nat) by {
        layout::lemma_level_start_agree(widths, wider, l as nat);
    }
    assert(wider[count] == level_widths);
    layout::lemma_level_start_agree(widths, wider, count as nat);
    assert(layout::level_start(wider, (count + 1) as nat) == layout::level_start(
        wider,
        count as nat,
    ) + layout::sum(wider[count]));
    assert forall|l: int| 0 <= l < more.len() implies {
        &&& (#[trigger] levels.push(builder.level)[l]).wf()
        &&& layout::laid(
            more[l].0@,
            layout::level_start(wider, l as nat),
            wider[l],
            levels.push(builder.level)[l].channels@,
        )
    } by {
        if l < count {
            assert(levels[l].wf());
            assert(config.take(count)[l] == more[l]);
        }
    }
    assert forall|l: int| 0 <= l < more.len() implies {
        &&& (#[trigger] shut[l]).wf()
        &&& shut[l].channels@ == layout::completing(
            more[l].0@,
            levels.push(builder.level)[l].channels@,
        )
    } by {
        if l < count {
            assert(levels_shutdown[l].wf());
            assert(config.take(count)[l] == more[l]);
        }
    }
    assert forall|i: int| #[trigger]
        bits::has_bit(builder.complete_shutdown_mask, i) <==> exists|l: int|
            0 <= l < shut.len() && bits::has_bit((#[trigger] shut[l]).mask, i) by {
        if bits::has_bit(mask, i) {
            let l = choose|l: int|
                0 <= l < levels_shutdown.len() && bits::has_bit(
                    (#[trigger] levels_shutdown[l]).mask,
                    i,
                );
            assert(shut[l] == levels_shutdown[l]);
        }
        if bits::has_bit(builder.level_shutdown.mask, i) {
            assert(shut[count] == builder.level_shutdown);
        }
        if exists|l: int| 0 <= l < shut.len() && bits::has_bit((#[trigger] shut[l]).mask, i) {
            let l = choose|l: int| 0 <= l < shut.len() && bits::has_bit((#[trigger] shut[l]).mask, i);
            if l < count {
                assert(levels_shutdown[l] == shut[l]);
            }
        }
    }
}

} // verus!
