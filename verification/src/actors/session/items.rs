//! Items and containers: what a client asks to be done with them, and what it is told of them.

use crate::actors::session::combat::optional_message;
use crate::actors::session::ids::{
    global_of, law_numbers_stand_for_one_thing, law_only_what_is_given_up_is_freed,
    lemma_inserted, lemma_local_at, local_at, local_of, one_to_one, without_local,
};
use crate::actors::session::{
    message_views, Outcome, OutcomeView, SessionActor, SessionError,
};
use crate::actors::world::{CommandView, UseTarget, WorldCommand};
use crate::entities::agent::{AgentId, AgentKey};
use crate::entities::inventory::InventorySlot;
use crate::entities::item::{item_views, lemma_content_view, Item, ItemView};
use crate::entities::items::{ContainerId, ItemGuid, ItemId, ItemPlacement, ItemRef};
use crate::entities::map::{is_player, GameMap, MapView};
use crate::entities::player::{lemma_slot_in, slot_in};
use crate::entities::position::Position;
use crate::messages::{ItemStack, ServerMessage, ServerMessageView, StackView, TextMessageType};
use vstd::prelude::*;

verus! {

/// What lies where an item is to be put.
#[derive(Debug, Clone, Copy, PartialEq, Eq, Structural)]
pub struct Occupant {
    pub guid: ItemGuid,
    pub container: bool,
}

/// Where an item goes that is put to a place: into a container it always goes to the front, and
/// what is put onto a container that lies in another goes into that.
pub open spec fn retargeted(target: ItemPlacement, occupant: Option<Occupant>) -> ItemPlacement {
    match target {
        ItemPlacement::Container { guid, within, .. } => ItemPlacement::Container {
            guid: match occupant {
                Some(occupant) => if occupant.container {
                    occupant.guid
                } else {
                    guid
                },
                None => guid,
            },
            within,
            index: 0,
        },
        _ => target,
    }
}

fn retarget(target: ItemPlacement, occupant: Option<Occupant>) -> (r: ItemPlacement)
    ensures
        r == retargeted(target, occupant),
{
    match target {
        ItemPlacement::Container { guid, within, .. } => {
            let guid: ItemGuid = match occupant {
                Some(occupant) => if occupant.container {
                    occupant.guid
                } else {
                    guid
                },
                None => guid,
            };
            ItemPlacement::Container { guid, within, index: 0 }
        },
        other => other,
    }
}

/// What a client sees of an item besides its kind: what it is filled with, or how many there are.
pub open spec fn subtype_of(item: ItemView) -> u8 {
    match item.fluid {
        Some(fluid) => fluid,
        None => item.amount,
    }
}

fn wire_subtype(item: &Item) -> (n: u8)
    ensures
        n == subtype_of(item@),
{
    match item.fluid {
        Some(fluid) => fluid,
        None => item.amount,
    }
}

/// What a client sees in a container.
pub open spec fn shown_content(content: Seq<ItemView>) -> StackView {
    Seq::new(content.len(), |i: int| Some((content[i].config.id, subtype_of(content[i]))))
}

fn show_content(content: &Vec<Item>) -> (r: Vec<Option<(ItemId, u8)>>)
    ensures
        r@ == shown_content(item_views(content@)),
{
    let ghost all = shown_content(item_views(content@));
    let mut r: Vec<Option<(ItemId, u8)>> = Vec::new();
    let mut i: usize = 0;
    while i < content.len()
        invariant
            i <= content@.len(),
            all == shown_content(item_views(content@)),
            r@ == all.take(i as int),
        decreases content.len() - i,
    {
        r.push(Some((content[i].config.id, wire_subtype(&content[i]))));
        assert(all.take(i + 1) =~= all.take(i as int).push(all[i as int]));
        i += 1;
    }
    assert(r@ =~= all);
    r
}

/// A search for an item that found none. Where the client did not search but pointed at a place,
/// what it pointed at has moved on, and nothing is said.
pub open spec fn unmatched(searched: bool) -> OutcomeView {
    if searched {
        OutcomeView::Deny("You do not have this object."@)
    } else {
        OutcomeView::Nothing
    }
}

fn deny_unmatched_search(searched: bool) -> (r: Outcome)
    ensures
        r@ == unmatched(searched),
{
    if searched {
        Outcome::Deny("You do not have this object.")
    } else {
        Outcome::Nothing
    }
}

/// The client's number for an open container.
pub open spec fn container_of(containers: Seq<(u64, u16)>, guid: ItemGuid) -> Option<ContainerId> {
    match local_of(containers, guid.0) {
        Some(id) => Some(ContainerId(id)),
        None => None,
    }
}

/// A container can be opened: it says how much it holds, and has a content.
pub open spec fn openable(item: ItemView) -> bool {
    item.config.capacity() is Some && item.content is Some
}

impl SessionActor {
    /// The player moves an item. `source` is the item that the client pointed at, and `target`
    /// where it is to go with what lies there, as far as they are there.
    pub fn handle_move_item(
        &self,
        source: Option<ItemRef>,
        amount: u8,
        target: Option<(ItemPlacement, Option<Occupant>)>,
    ) -> (r: Outcome)
        ensures
            r@ == match (source, target) {
                (Some(source), Some((to, occupant))) => OutcomeView::Command(
                    CommandView::MoveItem {
                        agent: self.player_key,
                        source,
                        amount,
                        to: retargeted(to, occupant),
                    },
                ),
                _ => OutcomeView::Nothing,
            },
    {
        match (source, target) {
            (Some(source), Some((to, occupant))) => Outcome::Command(
                WorldCommand::MoveItem {
                    agent: self.player_key,
                    source,
                    amount,
                    to: retarget(to, occupant),
                },
            ),
            _ => Outcome::Nothing,
        }
    }

    /// The player uses an item, where it was found.
    pub fn handle_use_item(&self, found: Option<ItemRef>, searched: bool) -> (r: Outcome)
        ensures
            r@ == match found {
                Some(item) => OutcomeView::Command(
                    CommandView::UseItem { agent: self.player_key, item },
                ),
                None => unmatched(searched),
            },
    {
        match found {
            Some(item) => Outcome::Command(WorldCommand::UseItem { agent: self.player_key, item }),
            None => deny_unmatched_search(searched),
        }
    }

    /// The player uses an item with another, with an agent, or on a tile. A target in an inventory
    /// or a container is on no tile.
    pub fn handle_use_item_with(
        &self,
        source: Option<ItemRef>,
        searched: bool,
        target_item: Option<ItemRef>,
        target_placement: Option<ItemPlacement>,
        target_agent: Option<AgentId>,
    ) -> (r: Outcome)
        ensures
            r@ == match source {
                Some(source) => OutcomeView::Command(
                    CommandView::UseItemWith {
                        agent: self.player_key,
                        source,
                        target: UseTarget {
                            item: target_item,
                            agent: match target_agent {
                                Some(id) => self.key_of(id),
                                None => None,
                            },
                            position: match target_placement {
                                Some(ItemPlacement::Tile(position)) => Some(position),
                                _ => None,
                            },
                        },
                    },
                ),
                None => unmatched(searched),
            },
    {
        let source: ItemRef = match source {
            Some(source) => source,
            None => return deny_unmatched_search(searched),
        };
        let agent: Option<AgentKey> = match target_agent {
            Some(id) => self.agent_key(id),
            None => None,
        };
        let position: Option<Position> = match target_placement {
            Some(ItemPlacement::Tile(position)) => Some(position),
            _ => None,
        };
        Outcome::Command(
            WorldCommand::UseItemWith {
                agent: self.player_key,
                source,
                target: UseTarget { item: target_item, agent, position },
            },
        )
    }

    /// The client has closed a container.
    pub fn handle_close_container(&mut self, container_id: ContainerId)
        requires
            old(self).wf(),
        ensures
            final(self).wf(),
            final(self).player_key == old(self).player_key,
            final(self).agents@ == old(self).agents@,
            final(self).containers@ == without_local(old(self).containers@, container_id.0),
            global_of(final(self).containers@, container_id.0) is None,
    {
        self.containers.remove_by_local(container_id.0);
    }

    /// Which container is asked for when a client wants to see what the container with this number
    /// lies in: `parent` is looked up for the container that it stands for.
    pub fn handle_open_parent_container(&self, container_id: ContainerId) -> (r: Option<ItemGuid>)
        ensures
            r == match global_of(self.containers@, container_id.0) {
                Some(guid) => Some(ItemGuid(guid)),
                None => None,
            },
    {
        match self.containers.get_global(container_id.0) {
            Some(guid) => Some(ItemGuid(guid)),
            None => None,
        }
    }

    /// Opens a container for the client, under the number that it knows it by or a new one.
    pub fn open_container(&mut self, item: Option<&Item>, guid: ItemGuid, has_parent: bool) -> (r: Result<
        ServerMessage,
        SessionError,
    >)
        requires
            old(self).wf(),
            old(self).containers@.len() <= u16::MAX,
        ensures
            final(self).wf(),
            final(self).player_key == old(self).player_key,
            final(self).agents@ == old(self).agents@,
            match item {
                Some(item) => if openable(item@) {
                    &&& r matches Ok(m)
                    &&& container_of(final(self).containers@, guid) matches Some(container_id)
                    &&& m@ == (ServerMessageView::OpenContainer {
                        container_id,
                        capacity: item.config.capacity().unwrap(),
                        has_parent,
                        title: item.config.name@,
                        items: shown_content(item@.content.unwrap()),
                    })
                    &&& container_of(old(self).containers@, guid) is Some
                        ==> final(self).containers@ == old(self).containers@
                    &&& container_of(old(self).containers@, guid) is None
                        ==> final(self).containers@ == old(self).containers@.push(
                        (guid.0, container_id.0),
                    )
                } else {
                    r == Err::<ServerMessage, SessionError>(SessionError::InvalidState)
                        && final(self).containers@ == old(self).containers@
                },
                None => r == Err::<ServerMessage, SessionError>(SessionError::InvalidState)
                    && final(self).containers@ == old(self).containers@,
            },
    {
        let item = match item {
            Some(item) => item,
            None => return Err(SessionError::InvalidState),
        };
        proof {
            lemma_content_view(*item);
        }
        let capacity: u8 = match item.config.attr_capacity() {
            Some(capacity) => capacity,
            None => return Err(SessionError::InvalidState),
        };
        let items: Vec<Option<(ItemId, u8)>> = match &item.content {
            Some(content) => show_content(content),
            None => return Err(SessionError::InvalidState),
        };
        let container_id: ContainerId = ContainerId(self.containers.get_or_insert(guid.0));
        proof {
            lemma_inserted(old(self).containers@, guid.0, container_id.0);
        }
        Ok(
            ServerMessage::OpenContainer {
                container_id,
                capacity,
                has_parent,
                title: item.config.name.clone(),
                items,
            },
        )
    }

    /// What the client is told of a container that has changed, where it has it open and the
    /// container is in reach.
    pub fn send_container(&self, guid: ItemGuid, item: Option<&Item>) -> (m: Option<ServerMessage>)
        ensures
            match (container_of(self.containers@, guid), item) {
                (Some(container_id), Some(item)) => match item@.content {
                    Some(content) => m matches Some(m) && m@ == (
                    ServerMessageView::UpdateContainer {
                        container_id,
                        items: shown_content(content),
                    }),
                    None => m is None,
                },
                _ => m is None,
            },
    {
        let container_id: ContainerId = match self.containers.get_local(guid.0) {
            Some(id) => ContainerId(id),
            None => return None,
        };
        match item {
            Some(item) => {
                proof {
                    lemma_content_view(*item);
                }
                match &item.content {
                    Some(content) => Some(
                        ServerMessage::UpdateContainer {
                            container_id,
                            items: show_content(content),
                        },
                    ),
                    None => None,
                }
            },
            None => None,
        }
    }

    /// What lies in a slot of the player.
    pub open spec fn slot_message(&self, m: MapView, slot: InventorySlot) -> Option<
        ServerMessageView,
    > {
        if is_player(m, self.player_key) {
            let slots = m.agents[self.player_key.0].body->Player_0.inventory.slots;
            Some(
                ServerMessageView::IventorySlotUpdated {
                    slot,
                    item_id: match slot_in(slots, 0, slot) {
                        Some(i) => Some(slots[i].1.config.id),
                        None => None,
                    },
                },
            )
        } else {
            None
        }
    }

    /// What the client is told of a slot of its player.
    pub fn send_inventory_slot(&self, map: &GameMap, slot: InventorySlot) -> (m: Option<ServerMessage>)
        requires
            map.wf(),
        ensures
            match m {
                Some(m) => self.slot_message(map@, slot) == Some(m@),
                None => self.slot_message(map@, slot) is None,
            },
    {
        let player = match map.get_player(self.player_key) {
            Some(player) => player,
            None => return None,
        };
        let item_id: Option<ItemId> = match player.inventory.index_of(slot) {
            Some(i) => Some(player.inventory.slots[i].1.config.id),
            None => None,
        };
        Some(ServerMessage::IventorySlotUpdated { slot, item_id })
    }

    /// Closes the open containers that are no longer in reach, and says so to the client.
    /// `reachable` answers for each open container, in the order they are kept in.
    pub fn drop_unreachable_containers(&mut self, reachable: &Vec<bool>) -> (messages: Vec<ServerMessage>)
        requires
            old(self).wf(),
            reachable@.len() == old(self).containers@.len(),
        ensures
            final(self).wf(),
            final(self).player_key == old(self).player_key,
            final(self).agents@ == old(self).agents@,
            message_views(messages@) == closings(
                old(self).containers@,
                reachable@,
                reachable@.len(),
            ),
            final(self).containers@ == closed_down(
                old(self).containers@,
                reachable@,
                reachable@.len(),
            ),
    {
        let ghost before = self.containers@;
        let mut messages: Vec<ServerMessage> = Vec::new();
        assert(message_views(messages@) =~= Seq::empty());
        let known = self.containers.locals();
        let mut i: usize = 0;
        while i < reachable.len()
            invariant
                i <= reachable@.len(),
                reachable@.len() == before.len(),
                known@ == Seq::new(before.len(), |k: int| before[k].1),
                self.containers.wf(),
                self.agents == old(self).agents,
                self.player_key == old(self).player_key,
                message_views(messages@) == closings(before, reachable@, i as nat),
                self.containers@ == closed_down(before, reachable@, i as nat),
            decreases reachable.len() - i,
        {
            if !reachable[i] {
                let id: u16 = known[i];
                self.containers.remove_by_local(id);
                let ghost so_far = message_views(messages@);
                let m = ServerMessage::ContainerClosed { container_id: ContainerId(id) };
                let ghost said = m@;
                messages.push(m);
                assert(message_views(messages@) =~= so_far.push(said));
            }
            i += 1;
        }
        messages
    }

    /// What the client is told of a tile.
    pub fn send_tile(&self, position: Position, items: ItemStack) -> (m: ServerMessage)
        ensures
            m@ == (ServerMessageView::TileUpdated { position, items: items@ }),
    {
        ServerMessage::TileUpdated { position, items }
    }

    /// What the client is told of how much its player can still carry, where it is there.
    pub fn send_capacity(&self, cap: Option<u32>) -> (m: Option<ServerMessage>)
        ensures
            match cap {
                Some(cap) => m matches Some(m) && m@ == (
                ServerMessageView::PlayerCapacityUpdated { cap }),
                None => m is None,
            },
    {
        match cap {
            Some(cap) => Some(ServerMessage::PlayerCapacityUpdated { cap }),
            None => None,
        }
    }

    /// What the client reads when it looks at something, where what it looks at was made out and
    /// described. A player who is not on the map cannot look.
    pub fn handle_look(&self, map: &GameMap, description: Option<String>) -> (r: Result<
        Option<ServerMessage>,
        SessionError,
    >)
        ensures
            if !map@.positions.contains_key(self.player_key.0) {
                r == Err::<Option<ServerMessage>, SessionError>(SessionError::InvalidState)
            } else {
                &&& r matches Ok(m)
                &&& optional_message(m) == match description {
                    Some(text) => Some(
                        ServerMessageView::TextMessage {
                            text: text@,
                            message_type: TextMessageType::Look,
                        },
                    ),
                    None => None,
                }
            },
    {
        if map.agent_position(self.player_key).is_none() {
            return Err(SessionError::InvalidState);
        }
        match description {
            Some(text) => Ok(
                Some(ServerMessage::TextMessage { text, message_type: TextMessageType::Look }),
            ),
            None => Ok(None),
        }
    }
}

/// What a client is told of the containers out of reach among the first `n`.
pub open spec fn closings(containers: Seq<(u64, u16)>, reachable: Seq<bool>, n: nat) -> Seq<
    ServerMessageView,
>
    decreases n,
{
    if n == 0 {
        Seq::empty()
    } else {
        let before = closings(containers, reachable, (n - 1) as nat);
        if reachable[n - 1] {
            before
        } else {
            before.push(
                ServerMessageView::ContainerClosed {
                    container_id: ContainerId(containers[n - 1].1),
                },
            )
        }
    }
}

/// The containers that stay open of the first `n`, and those after them.
pub open spec fn closed_down(containers: Seq<(u64, u16)>, reachable: Seq<bool>, n: nat) -> Seq<
    (u64, u16),
>
    decreases n,
{
    if n == 0 {
        containers
    } else {
        let before = closed_down(containers, reachable, (n - 1) as nat);
        if reachable[n - 1] {
            before
        } else {
            without_local(before, containers[n - 1].1)
        }
    }
}

/// What is put into a container goes to its front; what is put onto a container that lies in
/// another goes into that one. Everywhere else it goes where it was to go.
pub proof fn law_containers_are_filled_from_the_front(
    target: ItemPlacement,
    occupant: Option<Occupant>,
)
    ensures
        target matches ItemPlacement::Container { guid, within, .. } ==> (retargeted(
            target,
            occupant,
        ) matches ItemPlacement::Container { guid: into, within: held, index } && index == 0 && held
            == within && (if occupant matches Some(o) && o.container {
            into == occupant.unwrap().guid
        } else {
            into == guid
        })),
        !(target is Container) ==> retargeted(target, occupant) == target,
{
}

/// A client is shown each item of a container in its place, with what fills it or else with how
/// many of it there are.
pub proof fn law_every_item_is_shown_in_its_place(content: Seq<ItemView>, i: int)
    requires
        0 <= i < content.len(),
    ensures
        shown_content(content).len() == content.len(),
        shown_content(content)[i] matches Some((id, n)) && id == content[i].config.id && (if content[i].fluid
            is Some {
            Some(n) == content[i].fluid
        } else {
            n == content[i].amount
        }),
{
}

/// Just the containers out of reach are closed, and the client is told so of each by the number it
/// knows it by; the others stay open under theirs.
pub proof fn law_only_containers_out_of_reach_are_closed(
    containers: Seq<(u64, u16)>,
    reachable: Seq<bool>,
    n: nat,
    i: int,
)
    requires
        one_to_one(containers),
        n <= containers.len(),
        containers.len() == reachable.len(),
        0 <= i < containers.len(),
    ensures
        ({
            let closes = i < n && !reachable[i];
            let (guid, id) = containers[i];
            &&& one_to_one(closed_down(containers, reachable, n))
            &&& closed_down(containers, reachable, n).contains((guid, id)) <==> !closes
            &&& global_of(closed_down(containers, reachable, n), id) == (if closes {
                None
            } else {
                Some(guid)
            })
            &&& closings(containers, reachable, n).contains(
                ServerMessageView::ContainerClosed { container_id: ContainerId(id) },
            ) <==> closes
        }),
    decreases n,
{
    let told = ServerMessageView::ContainerClosed { container_id: ContainerId(containers[i].1) };
    if n == 0 {
        law_numbers_stand_for_one_thing(containers, i, 0, 0);
        assert(containers.contains(containers[i]));
    } else {
        law_only_containers_out_of_reach_are_closed(containers, reachable, (n - 1) as nat, i);
        law_only_containers_out_of_reach_are_closed(containers, reachable, (n - 1) as nat, n - 1);
        let open = closed_down(containers, reachable, (n - 1) as nat);
        let before = closings(containers, reachable, (n - 1) as nat);
        if !reachable[n - 1] {
            let k = open.index_of(containers[n - 1]);
            let after = without_local(open, containers[n - 1].1);
            if open.contains(containers[i]) {
                let j = open.index_of(containers[i]);
                law_only_what_is_given_up_is_freed(open, k, j);
                if i != n - 1 {
                    lemma_found_is_held(after, containers[i].1);
                } else if after.contains(containers[i]) {
                    law_numbers_stand_for_one_thing(after, after.index_of(containers[i]), 0, 0);
                }
            } else {
                lemma_given_up_adds_nothing(open, containers[n - 1].1, containers[i]);
                law_only_what_is_given_up_is_freed(open, k, k);
                lemma_absent_stays_absent(open, k, containers[i].1);
            }
            let after_told = closings(containers, reachable, n);
            assert(after_told[before.len() as int] == after_told.last());
            if before.contains(told) {
                assert(after_told[before.index_of(told)] == told);
            }
            if after_told.contains(told) {
                let t = after_told.index_of(told);
                if t < before.len() {
                    assert(before[t] == told);
                } else {
                    assert(containers[i].1 == containers[n - 1].1);
                }
            }
        }
    }
}

proof fn lemma_found_is_held(s: Seq<(u64, u16)>, local: u16)
    ensures
        global_of(s, local) matches Some(global) ==> s.contains((global, local)),
{
    lemma_local_at(s, 0, local);
    if let Some(k) = local_at(s, 0, local) {
        assert(s[k] == (s[k].0, local));
    }
}

proof fn lemma_given_up_adds_nothing(s: Seq<(u64, u16)>, local: u16, entry: (u64, u16))
    requires
        !s.contains(entry),
    ensures
        !without_local(s, local).contains(entry),
{
    lemma_local_at(s, 0, local);
    let r = without_local(s, local);
    if r.contains(entry) {
        let j = r.index_of(entry);
        if let Some(k) = local_at(s, 0, local) {
            if j < k {
                assert(s[j] == entry);
            } else {
                assert(s[j + 1] == entry);
            }
        } else {
            assert(s[j] == entry);
        }
    }
}

proof fn lemma_absent_stays_absent(s: Seq<(u64, u16)>, k: int, local: u16)
    requires
        one_to_one(s),
        0 <= k < s.len(),
        global_of(s, local) is None,
    ensures
        global_of(without_local(s, s[k].1), local) is None,
{
    lemma_local_at(s, 0, local);
    lemma_local_at(s, 0, s[k].1);
    let r = without_local(s, s[k].1);
    lemma_local_at(r, 0, local);
    if let Some(j) = local_at(r, 0, local) {
        if let Some(p) = local_at(s, 0, s[k].1) {
            if j < p {
                assert(s[j].1 == local);
            } else {
                assert(s[j + 1].1 == local);
            }
        }
    }
}

/// A client is told of a slot which item lies in it, or that it is empty.
pub proof fn law_a_slot_shows_what_lies_in_it(
    s: SessionActor,
    m: MapView,
    slot: InventorySlot,
    i: int,
)
    requires
        m.agents.contains_key(s.player_key.0),
        m.agents[s.player_key.0].body is Player,
    ensures
        ({
            let slots = m.agents[s.player_key.0].body->Player_0.inventory.slots;
            s.slot_message(m, slot) matches Some(ServerMessageView::IventorySlotUpdated {
                slot: of,
                item_id,
            }) && of == slot && (0 <= i < slots.len() && slots[i].0 == slot && (forall|j: int|
                0 <= j < i ==> (#[trigger] slots[j]).0 != slot) ==> item_id == Some(
                slots[i].1.config.id,
            )) && ((forall|j: int| 0 <= j < slots.len() ==> (#[trigger] slots[j]).0 != slot)
                ==> item_id is None)
        }),
{
    let slots = m.agents[s.player_key.0].body->Player_0.inventory.slots;
    lemma_slot_in(slots, 0, slot);
}

} // verus!
