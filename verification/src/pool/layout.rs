//! How the channels of a pool are laid out over its priority levels and over the present field.
use vstd::prelude::*;

use crate::bits;
use crate::pool::{ChannelParams, PoolBehavior};
use crate::shared::{draw_ticket, CellStart, Ticket, TicketHandle, Tickets};

verus! {

/// The identifier for a channel within a level, consisting of a channel key, and its bit mask.
#[derive(Debug)]
pub struct ChannelIdentifier<Key> {
    pub key: Key,
    pub mask: u64,
}

impl<Key: Copy> Copy for ChannelIdentifier<Key> {

}

impl<Key: Copy> Clone for ChannelIdentifier<Key> {
    fn clone(&self) -> (channel: Self)
        ensures
            channel == *self,
    {
        *self
    }
}

/// A discrete priority level of a threadpool
pub struct Level<Key> {
    /// The present bitfield mask for all the channels on this level
    pub mask: u64,
    /// The roundrobin atomic index for alternating between channels in this level
    pub channel_index: Tickets,
    /// All the channels in this level
    pub channels: Vec<ChannelIdentifier<Key>>,
    /// How the index started
    pub started: CellStart<usize>,
}

/// Whether `mask` holds exactly the bits of the channels in `channels`.
pub open spec fn covers<Key>(mask: u64, channels: Seq<ChannelIdentifier<Key>>) -> bool {
    forall|i: int| #[trigger]
        bits::has_bit(mask, i) <==> exists|c: int|
            0 <= c < channels.len() && bits::has_bit((#[trigger] channels[c]).mask, i)
}

/// The sum of `widths`.
pub open spec fn sum(widths: Seq<nat>) -> nat
    decreases widths.len(),
{
    if widths.len() == 0 {
        0
    } else {
        sum(widths.drop_last()) + widths.last()
    }
}

/// Whether `channels` are the channels that `params` ask for, channel `c` with a mask of
/// `widths[c]` bits, and the masks one after the other from bit `start` on.
pub open spec fn laid<Behavior: PoolBehavior>(
    params: Seq<ChannelParams<Behavior>>,
    start: nat,
    widths: Seq<nat>,
    channels: Seq<ChannelIdentifier<Behavior::ChannelKey>>,
) -> bool {
    &&& widths.len() == params.len()
    &&& channels.len() == params.len()
    &&& forall|c: int|
        0 <= c < params.len() ==> {
            &&& (#[trigger] channels[c]).key == params[c].key
            &&& bits::is_span(
                channels[c].mask,
                (start + sum(widths.take(c))) as int,
                (start + sum(widths.take(c + 1))) as int,
            )
        }
}

/// Those of `channels` whose params ask for completion on close, in the same order.
pub open spec fn completing<Behavior: PoolBehavior>(
    params: Seq<ChannelParams<Behavior>>,
    channels: Seq<ChannelIdentifier<Behavior::ChannelKey>>,
) -> Seq<ChannelIdentifier<Behavior::ChannelKey>>
    decreases params.len(),
{
    if params.len() == 0 {
        Seq::empty()
    } else if params.last().complete_on_close {
        completing(params.drop_last(), channels.drop_last()).push(channels.last())
    } else {
        completing(params.drop_last(), channels.drop_last())
    }
}

impl<Key: Copy> Level<Key> {
    /// The level's mask holds exactly the bits of its channels, and the first ticket of the level was
    /// zero.
    pub open spec fn wf(&self) -> bool {
        &&& covers(self.mask, self.channels@)
        &&& self.started.of(self.channel_index.cell(), 0)
    }

    /// A level without channels.
    pub fn empty() -> (level: Self)
        ensures
            level.wf(),
            level.channels@ == Seq::<ChannelIdentifier<Key>>::empty(),
    {
        broadcast use bits::group_bits;

        let (channel_index, started) = Tickets::new(0);
        Level { mask: 0, channel_index, channels: Vec::new(), started }
    }

    /// Add a channel to the level.
    pub fn add(&mut self, channel: ChannelIdentifier<Key>)
        requires
            old(self).wf(),
        ensures
            final(self).wf(),
            final(self).channels@ == old(self).channels@.push(channel),
    {
        self.mask = self.mask | channel.mask;
        self.channels.push(channel);
        proof {
            lemma_covers_push(old(self).mask, old(self).channels@, channel);
        }
    }
}

proof fn lemma_covers_push<Key>(
    mask: u64,
    channels: Seq<ChannelIdentifier<Key>>,
    channel: ChannelIdentifier<Key>,
)
    requires
        covers(mask, channels),
    ensures
        covers(mask | channel.mask, channels.push(channel)),
{
    let after = channels.push(channel);
    assert forall|i: int| #[trigger] bits::has_bit(mask | channel.mask, i) <==> exists|c: int|
        0 <= c < after.len() && bits::has_bit((#[trigger] after[c]).mask, i) by {
        bits::lemma_or_bits(mask, channel.mask, i);
        if bits::has_bit(mask, i) {
            let c = choose|c: int|
                0 <= c < channels.len() && bits::has_bit((#[trigger] channels[c]).mask, i);
            assert(after[c] == channels[c]);
        }
        if bits::has_bit(channel.mask, i) {
            assert(after[channels.len() as int] == channel);
        }
        if exists|c: int| 0 <= c < after.len() && bits::has_bit((#[trigger] after[c]).mask, i) {
            let c = choose|c: int|
                0 <= c < after.len() && bits::has_bit((#[trigger] after[c]).mask, i);
            if c < channels.len() {
                assert(channels[c] == after[c]);
            }
        }
    }
}

impl<Key: Copy> Level<Key> {
    /// The channel that a ticket leads to. The channels of a level take turns.
    pub fn pick(&self, ticket: usize) -> (channel: ChannelIdentifier<Key>)
        requires
            self.channels@.len() > 0,
        ensures
            channel == self.channels@[ticket as int % self.channels@.len() as int],
    {
        self.channels[ticket % self.channels.len()]
    }

    /// Draw one ticket, and find the channel that it leads to.
    pub fn draw(&self, handle: &mut TicketHandle) -> (turn: Turn<Key>)
        requires
            self.channels@.len() > 0,
            old(handle).cell() == self.channel_index.cell(),
        ensures
            turn.of(*self),
            old(handle).drew(*final(handle), turn.ticket),
    {
        let ticket = draw_ticket(handle);
        Turn { channel: self.pick(ticket.number()), ticket }
    }
}

/// A channel whose turn it is in a level, with the ticket that says so.
pub struct Turn<Key> {
    pub channel: ChannelIdentifier<Key>,
    pub ticket: Ticket,
}

impl<Key> Turn<Key> {
    /// Whether the ticket was drawn from `level`, and leads to the channel.
    pub open spec fn of(&self, level: Level<Key>) -> bool {
        &&& self.ticket.cell() == level.channel_index.cell()
        &&& self.channel == level.channels@[self.ticket.drawn() as int
            % level.channels@.len() as int]
    }
}

/// A level as it is built: the level for normal operation, the same level with only the channels
/// that are completed on close, and the mask of all such channels of the pool.
pub struct LevelBuilder<Behavior: PoolBehavior> {
    pub level: Level<Behavior::ChannelKey>,
    pub level_shutdown: Level<Behavior::ChannelKey>,
    pub complete_shutdown_mask: u64,
}

impl<Behavior: PoolBehavior> LevelBuilder<Behavior> {
    /// Both levels have exact masks.
    pub open spec fn wf(&self) -> bool {
        self.level.wf() && self.level_shutdown.wf()
    }

    /// Start a level, with the mask of the completing channels of the levels before.
    pub fn new(complete_shutdown_mask: u64) -> (builder: Self)
        ensures
            builder.wf(),
            builder.level.channels@ == Seq::<ChannelIdentifier<Behavior::ChannelKey>>::empty(),
            builder.level_shutdown.channels@ == Seq::<ChannelIdentifier<Behavior::ChannelKey>>::empty(),
            builder.complete_shutdown_mask == complete_shutdown_mask,
    {
        LevelBuilder {
            level: Level::empty(),
            level_shutdown: Level::empty(),
            complete_shutdown_mask,
        }
    }

    /// Add the channel that `params` ask for, which claimed the bits of the present field from
    /// `bit_from` up to, but not including, `bit_until`.
    pub fn place(&mut self, params: &ChannelParams<Behavior>, bit_from: usize, bit_until: usize) -> (channel:
        ChannelIdentifier<Behavior::ChannelKey>)
        requires
            old(self).wf(),
            bit_until <= 64,
        ensures
            final(self).wf(),
            channel.key == params.key,
            bits::is_span(channel.mask, bit_from as int, bit_until as int),
            final(self).level.channels@ == old(self).level.channels@.push(channel),
            final(self).level_shutdown.channels@ == if params.complete_on_close {
                old(self).level_shutdown.channels@.push(channel)
            } else {
                old(self).level_shutdown.channels@
            },
            forall|i: int| #[trigger]
                bits::has_bit(final(self).complete_shutdown_mask, i) <==> bits::has_bit(
                    old(self).complete_shutdown_mask,
                    i,
                ) || params.complete_on_close && bits::has_bit(channel.mask, i),
    {
        broadcast use bits::group_bits;

        let channel = ChannelIdentifier {
            key: params.key,
            mask: bits::span_mask(bit_from, bit_until),
        };
        self.level.add(channel);
        if params.complete_on_close {
            self.level_shutdown.add(channel);
            self.complete_shutdown_mask = self.complete_shutdown_mask | channel.mask;
        }
        channel
    }
}

/// Whether the level in `builder` is the one that `params` ask for, when channel `c` claims
/// `widths[c]` bits, the first of them bit `start`, and `earlier` is the mask of the completing
/// channels of the levels before.
pub open spec fn level_built<Behavior: PoolBehavior>(
    params: Seq<ChannelParams<Behavior>>,
    start: nat,
    widths: Seq<nat>,
    earlier: u64,
    builder: LevelBuilder<Behavior>,
) -> bool {
    &&& builder.wf()
    &&& laid(params, start, widths, builder.level.channels@)
    &&& builder.level_shutdown.channels@ == completing(params, builder.level.channels@)
    &&& forall|i: int| #[trigger]
        bits::has_bit(builder.complete_shutdown_mask, i) <==> bits::has_bit(earlier, i)
            || bits::has_bit(builder.level_shutdown.mask, i)
}

/// The first bit of level `l`, when channel `c` of level `k` claims `widths[k][c]` bits.
pub open spec fn level_start(widths: Seq<Seq<nat>>, l: nat) -> nat
    decreases l,
{
    if l == 0 {
        0
    } else {
        level_start(widths, (l - 1) as nat) + sum(widths[l - 1])
    }
}

pub proof fn lemma_level_start_agree(a: Seq<Seq<nat>>, b: Seq<Seq<nat>>, l: nat)
    requires
        l <= a.len(),
        l <= b.len(),
        forall|k: int| 0 <= k < l ==> a[k] == b[k],
    ensures
        level_start(a, l) == level_start(b, l),
    decreases l,
{
    if l > 0 {
        lemma_level_start_agree(a, b, (l - 1) as nat);
    }
}

pub proof fn lemma_level_built_push<Behavior: PoolBehavior>(
    params: Seq<ChannelParams<Behavior>>,
    start: nat,
    widths: Seq<nat>,
    earlier: u64,
    before: LevelBuilder<Behavior>,
    count: int,
    channel: ChannelIdentifier<Behavior::ChannelKey>,
    width: nat,
    after: LevelBuilder<Behavior>,
)
    requires
        0 <= count < params.len(),
        level_built(params.take(count), start, widths, earlier, before),
        channel.key == params[count].key,
        bits::is_span(
            channel.mask,
            (start + sum(widths)) as int,
            (start + sum(widths) + width) as int,
        ),
        after.wf(),
        after.level.channels@ == before.level.channels@.push(channel),
        after.level_shutdown.channels@ == if params[count].complete_on_close {
            before.level_shutdown.channels@.push(channel)
        } else {
            before.level_shutdown.channels@
        },
        forall|i: int| #[trigger]
            bits::has_bit(after.complete_shutdown_mask, i) <==> bits::has_bit(
                before.complete_shutdown_mask,
                i,
            ) || params[count].complete_on_close && bits::has_bit(channel.mask, i),
    ensures
        level_built(params.take(count + 1), start, widths.push(width), earlier, after),
        sum(widths.push(width)) == sum(widths) + width,
{
    let wider = widths.push(width);
    let more = params.take(count + 1);
    let channels = after.level.channels@;
    assert(wider.drop_last() =~= widths);
    assert(wider.take(count + 1) =~= wider);
    assert(wider.take(count) =~= widths);
    assert forall|c: int| 0 <= c < more.len() implies {
        &&& (#[trigger] channels[c]).key == more[c].key
        &&& bits::is_span(
            channels[c].mask,
            (start + sum(wider.take(c))) as int,
            (start + sum(wider.take(c + 1))) as int,
        )
    } by {
        if c < count {
            assert(before.level.channels@[c] == channels[c]);
            assert(wider.take(c) =~= widths.take(c));
            assert(wider.take(c + 1) =~= widths.take(c + 1));
        }
    }
    assert(more.drop_last() =~= params.take(count));
    assert(channels.drop_last() =~= before.level.channels@);
    assert(after.level_shutdown.channels@ =~= completing(more, channels));
    assert forall|i: int| #[trigger] bits::has_bit(after.complete_shutdown_mask, i) <==> bits::has_bit(
        earlier,
        i,
    ) || bits::has_bit(after.level_shutdown.mask, i) by {
        let fewer = before.level_shutdown.channels@;
        let shut = after.level_shutdown.channels@;
        if bits::has_bit(before.level_shutdown.mask, i) {
            let c = choose|c: int|
                0 <= c < fewer.len() && bits::has_bit((#[trigger] fewer[c]).mask, i);
            assert(shut[c] == fewer[c]);
        }
        if params[count].complete_on_close && bits::has_bit(channel.mask, i) {
            assert(shut[fewer.len() as int] == channel);
        }
        if bits::has_bit(after.level_shutdown.mask, i) {
            let c = choose|c: int|
                0 <= c < shut.len() && bits::has_bit((#[trigger] shut[c]).mask, i);
            if c < fewer.len() {
                assert(fewer[c] == shut[c]);
            }
        }
    }
}

} // verus!
