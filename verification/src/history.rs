//! The edit history: commands that change the store and can be taken back,
//! and the two stacks that remember them.

use crate::count_laws::{counts_exact, lemma_occurrences_without};
use crate::osm_store::{
    lemma_occurrences_contains, occurrences, positions_of, without_node, NodeView, OsmNode,
    OsmStore, OsmWay, StoreView, WayView,
};
use crate::seq_facts::lemma_take_step;
use crate::tags::{clone_tags, tags_view};
use vstd::prelude::*;

verus! {

/// What a command reports.
#[derive(Debug, Clone)]
pub struct CommandResult {
    pub success: bool,
    pub needs_redraw: bool,
    pub message: Option<String>,
}

/// The mathematical value of what a command reports.
pub struct ResultView {
    pub success: bool,
    pub needs_redraw: bool,
    pub message: Option<Seq<char>>,
}

/// The text of a message, where there is one.
pub open spec fn text_of(message: Option<String>) -> Option<Seq<char>> {
    match message {
        Some(text) => Some(text@),
        None => None,
    }
}

/// The report of a command that took effect: no message.
pub open spec fn succeeded(needs_redraw: bool) -> ResultView {
    ResultView { success: true, needs_redraw, message: None }
}

/// The report of a command that did not take effect: nothing to draw
/// again, and the reason.
pub open spec fn failed(message: Seq<char>) -> ResultView {
    ResultView { success: false, needs_redraw: false, message: Some(message) }
}

impl View for CommandResult {
    type V = ResultView;

    open spec fn view(&self) -> ResultView {
        ResultView {
            success: self.success,
            needs_redraw: self.needs_redraw,
            message: text_of(self.message),
        }
    }
}

impl CommandResult {
    /// The result of a command that took effect.
    pub fn success(needs_redraw: bool) -> (result: Self)
        ensures
            result@ == succeeded(needs_redraw),
    {
        Self { success: true, needs_redraw, message: None }
    }

    /// The result of a command that did not take effect, with the reason.
    pub fn failure(message: &str) -> (result: Self)
        ensures
            result@ == failed(message@),
    {
        Self { success: false, needs_redraw: false, message: Some(message.to_owned()) }
    }
}

/// The character of a decimal digit.
pub open spec fn digit(d: int) -> char {
    if d == 0 {
        '0'
    } else if d == 1 {
        '1'
    } else if d == 2 {
        '2'
    } else if d == 3 {
        '3'
    } else if d == 4 {
        '4'
    } else if d == 5 {
        '5'
    } else if d == 6 {
        '6'
    } else if d == 7 {
        '7'
    } else if d == 8 {
        '8'
    } else {
        '9'
    }
}

/// The decimal digits of a number, the first one not zero but for zero
/// itself.
pub open spec fn digits(n: nat) -> Seq<char>
    decreases n,
{
    if n < 10 {
        seq![digit(n as int)]
    } else {
        digits(n / 10).push(digit((n % 10) as int))
    }
}

/// The decimal text of a number: a minus sign where it is negative, then
/// the digits of its magnitude.
pub open spec fn decimal_text(number: i64) -> Seq<char> {
    if number < 0 {
        seq!['-'] + digits((-number) as nat)
    } else {
        digits(number as nat)
    }
}

/// `format!` of std with a text, a number and a text: the first text, the
/// number in decimal as `Display` writes it for a signed integer (a minus
/// sign where it is negative, then its digits without leading zeros), the
/// second text.
#[verifier::external_body]
pub(crate) fn text_with_number(before: &str, number: i64, after: &str) -> (text: String)
    ensures
        text@ == before@ + decimal_text(number) + after@,
{
    format!("{}{}{}", before, number, after)
}

/// `concat` of std on a slice of two texts: the characters of the first
/// text, then those of the second.
#[verifier::external_body]
pub(crate) fn text_joined(first: &str, second: &str) -> (text: String)
    ensures
        text@ == first@ + second@,
{
    [first, second].concat()
}

/// The six digits of a number of millionths below one million.
pub open spec fn millionths_text(part: int) -> Seq<char> {
    seq![
        digit(part / 100000 % 10),
        digit(part / 10000 % 10),
        digit(part / 1000 % 10),
        digit(part / 100 % 10),
        digit(part / 10 % 10),
        digit(part % 10),
    ]
}

/// A coordinate, given in units of 1e-7 degree, as degrees with six
/// decimals: a minus sign where it is negative, then its magnitude rounded
/// to the nearest millionth of a degree, a half upwards.
pub open spec fn degrees_text(units: i32) -> Seq<char> {
    let magnitude = if units < 0 {
        -units
    } else {
        units as int
    };
    let rounded = (magnitude + 5) / 10;
    (if units < 0 {
        seq!['-']
    } else {
        Seq::<char>::empty()
    }) + digits((rounded / 1000000) as nat) + seq!['.'] + millionths_text(rounded % 1000000)
}

/// A text, a decimal digit, and a text.
fn text_with_digit(before: &str, d: i64, after: &str) -> (text: String)
    requires
        0 <= d < 10,
    ensures
        text@ == before@ + seq![digit(d as int)] + after@,
{
    assert(decimal_text(d) == seq![digit(d as int)]);
    text_with_number(before, d, after)
}

/// A text, the six digits of a number of millionths, and a text.
fn text_with_millionths(before: &str, part: i64, after: &str) -> (text: String)
    requires
        0 <= part < 1_000_000,
    ensures
        text@ == before@ + millionths_text(part as int) + after@,
{
    proof {
        reveal_strlit("");
    }
    let first = text_with_digit(before, part / 100_000 % 10, "");
    let second = text_with_digit(first.as_str(), part / 10_000 % 10, "");
    let third = text_with_digit(second.as_str(), part / 1_000 % 10, "");
    let fourth = text_with_digit(third.as_str(), part / 100 % 10, "");
    let fifth = text_with_digit(fourth.as_str(), part / 10 % 10, "");
    let text = text_with_digit(fifth.as_str(), part % 10, after);
    assert(text@ =~= before@ + millionths_text(part as int) + after@);
    text
}

/// A text, a coordinate in degrees with six decimals, and a text.
fn text_with_degrees(before: &str, units: i32, after: &str) -> (text: String)
    ensures
        text@ == before@ + degrees_text(units) + after@,
{
    let wide: i64 = units as i64;
    let magnitude: i64 = if wide < 0 {
        -wide
    } else {
        wide
    };
    let rounded: i64 = (magnitude + 5) / 10;
    let whole: i64 = rounded / 1_000_000;
    let part: i64 = rounded % 1_000_000;
    let signed = if units < 0 {
        text_joined(before, "-")
    } else {
        before.to_owned()
    };
    let first = text_with_number(signed.as_str(), whole, ".");
    let text = text_with_millionths(first.as_str(), part, after);
    proof {
        reveal_strlit("-");
        reveal_strlit(".");
        assert(decimal_text(whole) == digits(whole as nat));
        assert(text@ =~= before@ + degrees_text(units) + after@);
    }
    text
}

/// An edit that can be taken back.
pub trait Command {
    /// Whether `apply` takes effect on a store in this state.
    spec fn apply_succeeds(&self, state: StoreView) -> bool;

    /// What `apply` reports on a store in this state.
    spec fn apply_report(&self, state: StoreView) -> ResultView;

    /// Whether `after` is the state that `apply` leaves of `before`.
    spec fn applied(&self, before: StoreView, after: StoreView) -> bool;

    /// Whether `undo` takes effect on a store in this state.
    spec fn undo_succeeds(&self, state: StoreView) -> bool;

    /// What `undo` reports on a store in this state.
    spec fn undo_report(&self, state: StoreView) -> ResultView;

    /// Whether `after` is the state that `undo` leaves of `before`.
    spec fn undone(&self, before: StoreView, after: StoreView) -> bool;

    /// Carries the edit out. Where it does not succeed the store is unchanged.
    fn apply(&self, store: &mut OsmStore) -> (result: CommandResult)
        requires
            old(store)@.keyed(),
        ensures
            final(store)@.keyed(),
            result.success == self.apply_succeeds(old(store)@),
            result@ == self.apply_report(old(store)@),
            self.applied(old(store)@, final(store)@),
            !result.success ==> final(store)@ == old(store)@,
    ;

    /// Takes the edit back. Where it does not succeed the store is unchanged.
    fn undo(&self, store: &mut OsmStore) -> (result: CommandResult)
        requires
            old(store)@.keyed(),
        ensures
            final(store)@.keyed(),
            result.success == self.undo_succeeds(old(store)@),
            result@ == self.undo_report(old(store)@),
            self.undone(old(store)@, final(store)@),
            !result.success ==> final(store)@ == old(store)@,
    ;

    /// The line of text that names the edit.
    spec fn description_text(&self) -> Seq<char>;

    /// A line of text that names the edit.
    fn description(&self) -> (text: String)
        ensures
            text@ == self.description_text(),
    ;

    /// Whether the command was made for a store in this state: it holds
    /// what it needs of the state to take its effect back, and the state is
    /// one in which taking it back restores everything.
    spec fn fits(&self, state: StoreView) -> bool;

    /// Undo after apply gives the state back, for a command that fits the
    /// state and succeeds on it.
    proof fn lemma_undo_restores(&self, before: StoreView, between: StoreView, after: StoreView)
        requires
            before.keyed(),
            self.fits(before),
            self.apply_succeeds(before),
            self.applied(before, between),
            self.undone(between, after),
        ensures
            self.undo_succeeds(between),
            after == before,
    ;

    /// What apply leaves of a state is determined by the state.
    proof fn lemma_apply_determined(&self, before: StoreView, one: StoreView, other: StoreView)
        requires
            self.applied(before, one),
            self.applied(before, other),
        ensures
            one == other,
    ;
}

/// Replaces the tags of a way, with the feature, the layer and the area
/// mark that were derived from them.
pub struct UpdateWayTagsCommand {
    pub way_id: i64,
    pub old_tags: Vec<(String, String)>,
    pub new_tags: Vec<(String, String)>,
    pub old_render_feature: u16,
    pub new_render_feature: u16,
    pub old_layer: i8,
    pub new_layer: i8,
    pub old_is_area: bool,
    pub new_is_area: bool,
}

impl UpdateWayTagsCommand {
    /// The way as the command leaves it.
    pub open spec fn way_after(&self, way: WayView) -> WayView {
        WayView {
            tags: tags_view(self.new_tags@),
            render_feature: self.new_render_feature,
            layer: self.new_layer,
            is_area: self.new_is_area,
            ..way
        }
    }

    /// The way as the command found it.
    pub open spec fn way_before(&self, way: WayView) -> WayView {
        WayView {
            tags: tags_view(self.old_tags@),
            render_feature: self.old_render_feature,
            layer: self.old_layer,
            is_area: self.old_is_area,
            ..way
        }
    }
}

impl Command for UpdateWayTagsCommand {
    open spec fn apply_succeeds(&self, state: StoreView) -> bool {
        state.ways.contains_key(self.way_id)
    }

    open spec fn apply_report(&self, state: StoreView) -> ResultView {
        if self.apply_succeeds(state) {
            succeeded(self.old_render_feature != self.new_render_feature)
        } else {
            failed("Way not found"@)
        }
    }

    open spec fn applied(&self, before: StoreView, after: StoreView) -> bool {
        after == (if before.ways.contains_key(self.way_id) {
            StoreView {
                ways: before.ways.insert(self.way_id, self.way_after(before.ways[self.way_id])),
                ..before
            }
        } else {
            before
        })
    }

    open spec fn undo_succeeds(&self, state: StoreView) -> bool {
        state.ways.contains_key(self.way_id)
    }

    open spec fn undo_report(&self, state: StoreView) -> ResultView {
        if self.undo_succeeds(state) {
            succeeded(self.old_render_feature != self.new_render_feature)
        } else {
            failed("Way not found"@)
        }
    }

    open spec fn undone(&self, before: StoreView, after: StoreView) -> bool {
        after == (if before.ways.contains_key(self.way_id) {
            StoreView {
                ways: before.ways.insert(self.way_id, self.way_before(before.ways[self.way_id])),
                ..before
            }
        } else {
            before
        })
    }

    fn apply(&self, store: &mut OsmStore) -> (result: CommandResult) {
        let changed = store.retag_way(
            self.way_id,
            clone_tags(&self.new_tags),
            self.new_render_feature,
            self.new_layer,
            self.new_is_area,
        );
        if changed {
            CommandResult::success(self.old_render_feature != self.new_render_feature)
        } else {
            CommandResult::failure("Way not found")
        }
    }

    fn undo(&self, store: &mut OsmStore) -> (result: CommandResult) {
        let changed = store.retag_way(
            self.way_id,
            clone_tags(&self.old_tags),
            self.old_render_feature,
            self.old_layer,
            self.old_is_area,
        );
        if changed {
            CommandResult::success(self.old_render_feature != self.new_render_feature)
        } else {
            CommandResult::failure("Way not found")
        }
    }

    open spec fn description_text(&self) -> Seq<char> {
        "Update tags for Way #"@ + decimal_text(self.way_id)
    }

    fn description(&self) -> (text: String) {
        let text = text_with_number("Update tags for Way #", self.way_id, "");
        proof {
            reveal_strlit("");
            assert(text@ =~= self.description_text());
        }
        text
    }

    open spec fn fits(&self, state: StoreView) -> bool {
        self.records(state)
    }

    proof fn lemma_undo_restores(&self, before: StoreView, between: StoreView, after: StoreView) {
    }

    proof fn lemma_apply_determined(&self, before: StoreView, one: StoreView, other: StoreView) {
    }
}

/// Replaces the tags of a node.
pub struct UpdateNodeTagsCommand {
    pub node_id: i64,
    pub old_tags: Vec<(String, String)>,
    pub new_tags: Vec<(String, String)>,
}

impl Command for UpdateNodeTagsCommand {
    open spec fn apply_succeeds(&self, state: StoreView) -> bool {
        state.nodes.contains_key(self.node_id)
    }

    open spec fn apply_report(&self, state: StoreView) -> ResultView {
        if self.apply_succeeds(state) {
            succeeded(false)
        } else {
            failed("Node not found"@)
        }
    }

    open spec fn applied(&self, before: StoreView, after: StoreView) -> bool {
        after == (if before.nodes.contains_key(self.node_id) {
            StoreView {
                nodes: before.nodes.insert(
                    self.node_id,
                    NodeView { tags: tags_view(self.new_tags@), ..before.nodes[self.node_id] },
                ),
                ..before
            }
        } else {
            before
        })
    }

    open spec fn undo_succeeds(&self, state: StoreView) -> bool {
        state.nodes.contains_key(self.node_id)
    }

    open spec fn undo_report(&self, state: StoreView) -> ResultView {
        if self.undo_succeeds(state) {
            succeeded(false)
        } else {
            failed("Node not found"@)
        }
    }

    open spec fn undone(&self, before: StoreView, after: StoreView) -> bool {
        after == (if before.nodes.contains_key(self.node_id) {
            StoreView {
                nodes: before.nodes.insert(
                    self.node_id,
                    NodeView { tags: tags_view(self.old_tags@), ..before.nodes[self.node_id] },
                ),
                ..before
            }
        } else {
            before
        })
    }

    fn apply(&self, store: &mut OsmStore) -> (result: CommandResult) {
        if store.retag_node(self.node_id, clone_tags(&self.new_tags)) {
            CommandResult::success(false)
        } else {
            CommandResult::failure("Node not found")
        }
    }

    fn undo(&self, store: &mut OsmStore) -> (result: CommandResult) {
        if store.retag_node(self.node_id, clone_tags(&self.old_tags)) {
            CommandResult::success(false)
        } else {
            CommandResult::failure("Node not found")
        }
    }

    open spec fn description_text(&self) -> Seq<char> {
        "Update tags for Node #"@ + decimal_text(self.node_id)
    }

    fn description(&self) -> (text: String) {
        let text = text_with_number("Update tags for Node #", self.node_id, "");
        proof {
            reveal_strlit("");
            assert(text@ =~= self.description_text());
        }
        text
    }

    open spec fn fits(&self, state: StoreView) -> bool {
        self.records(state)
    }

    proof fn lemma_undo_restores(&self, before: StoreView, between: StoreView, after: StoreView) {
    }

    proof fn lemma_apply_determined(&self, before: StoreView, one: StoreView, other: StoreView) {
    }
}

/// Moves a node, with its index entries.
pub struct MoveNodeCommand {
    pub node_id: i64,
    pub old_lon: i32,
    pub old_lat: i32,
    pub new_lon: i32,
    pub new_lat: i32,
}

impl Command for MoveNodeCommand {
    open spec fn apply_succeeds(&self, state: StoreView) -> bool {
        state.nodes.contains_key(self.node_id)
    }

    open spec fn apply_report(&self, state: StoreView) -> ResultView {
        if self.apply_succeeds(state) {
            succeeded(true)
        } else {
            failed("Node not found"@)
        }
    }

    open spec fn applied(&self, before: StoreView, after: StoreView) -> bool {
        before.moved(after, self.node_id, self.new_lon, self.new_lat)
    }

    open spec fn undo_succeeds(&self, state: StoreView) -> bool {
        state.nodes.contains_key(self.node_id)
    }

    open spec fn undo_report(&self, state: StoreView) -> ResultView {
        if self.undo_succeeds(state) {
            succeeded(true)
        } else {
            failed("Node not found"@)
        }
    }

    open spec fn undone(&self, before: StoreView, after: StoreView) -> bool {
        before.moved(after, self.node_id, self.old_lon, self.old_lat)
    }

    fn apply(&self, store: &mut OsmStore) -> (result: CommandResult) {
        if store.update_node_position(self.node_id, self.new_lon, self.new_lat) {
            CommandResult::success(true)
        } else {
            CommandResult::failure("Node not found")
        }
    }

    fn undo(&self, store: &mut OsmStore) -> (result: CommandResult) {
        if store.update_node_position(self.node_id, self.old_lon, self.old_lat) {
            CommandResult::success(true)
        } else {
            CommandResult::failure("Node not found")
        }
    }

    open spec fn description_text(&self) -> Seq<char> {
        "Move Node #"@ + decimal_text(self.node_id) + " from ("@ + degrees_text(self.old_lon)
            + ", "@ + degrees_text(self.old_lat) + ") to ("@ + degrees_text(self.new_lon) + ", "@
            + degrees_text(self.new_lat) + ")"@
    }

    fn description(&self) -> (text: String) {
        let start = text_with_number("Move Node #", self.node_id, " from (");
        let from_lon = text_with_degrees(start.as_str(), self.old_lon, ", ");
        let from_lat = text_with_degrees(from_lon.as_str(), self.old_lat, ") to (");
        let to_lon = text_with_degrees(from_lat.as_str(), self.new_lon, ", ");
        text_with_degrees(to_lon.as_str(), self.new_lat, ")")
    }

    open spec fn fits(&self, state: StoreView) -> bool {
        self.records(state) && state.node_index_exact() && state.way_index_exact()
    }

    proof fn lemma_undo_restores(&self, before: StoreView, between: StoreView, after: StoreView) {
        crate::history_laws::lemma_move_back(
            before,
            between,
            after,
            self.node_id,
            self.new_lon,
            self.new_lat,
        );
    }

    proof fn lemma_apply_determined(&self, before: StoreView, one: StoreView, other: StoreView) {
        crate::history_laws::lemma_moved_determined(
            before,
            one,
            other,
            self.node_id,
            self.new_lon,
            self.new_lat,
        );
    }
}

/// Adds a node, with its index entry.
pub struct AddNodeCommand {
    pub node: OsmNode,
}

impl Command for AddNodeCommand {
    open spec fn apply_succeeds(&self, state: StoreView) -> bool {
        true
    }

    open spec fn apply_report(&self, state: StoreView) -> ResultView {
        succeeded(true)
    }

    open spec fn applied(&self, before: StoreView, after: StoreView) -> bool {
        after == before.with_node(self.node@)
    }

    open spec fn undo_succeeds(&self, state: StoreView) -> bool {
        true
    }

    open spec fn undo_report(&self, state: StoreView) -> ResultView {
        succeeded(true)
    }

    open spec fn undone(&self, before: StoreView, after: StoreView) -> bool {
        after == before.without_node(self.node.id)
    }

    fn apply(&self, store: &mut OsmStore) -> (result: CommandResult) {
        store.add_node_with_index(self.node.duplicate());
        CommandResult::success(true)
    }

    fn undo(&self, store: &mut OsmStore) -> (result: CommandResult) {
        store.remove_node_with_index(self.node.id);
        CommandResult::success(true)
    }

    open spec fn description_text(&self) -> Seq<char> {
        "Add Node #"@ + decimal_text(self.node.id) + " at ("@ + degrees_text(self.node.lon)
            + ", "@ + degrees_text(self.node.lat) + ")"@
    }

    fn description(&self) -> (text: String) {
        let start = text_with_number("Add Node #", self.node.id, " at (");
        let lon = text_with_degrees(start.as_str(), self.node.lon, ", ");
        text_with_degrees(lon.as_str(), self.node.lat, ")")
    }

    open spec fn fits(&self, state: StoreView) -> bool {
        self.records(state)
    }

    proof fn lemma_undo_restores(&self, before: StoreView, between: StoreView, after: StoreView) {
        broadcast use vstd::multiset::group_multiset_axioms;

    }

    proof fn lemma_apply_determined(&self, before: StoreView, one: StoreView, other: StoreView) {
    }
}

/// Removes a way, with its counts and its index entry.
pub struct DeleteWayCommand {
    pub way: OsmWay,
}

impl Command for DeleteWayCommand {
    open spec fn apply_succeeds(&self, state: StoreView) -> bool {
        true
    }

    open spec fn apply_report(&self, state: StoreView) -> ResultView {
        succeeded(true)
    }

    open spec fn applied(&self, before: StoreView, after: StoreView) -> bool {
        after == before.without_way(self.way.id)
    }

    open spec fn undo_succeeds(&self, state: StoreView) -> bool {
        true
    }

    open spec fn undo_report(&self, state: StoreView) -> ResultView {
        succeeded(true)
    }

    open spec fn undone(&self, before: StoreView, after: StoreView) -> bool {
        after == before.with_way(self.way@)
    }

    fn apply(&self, store: &mut OsmStore) -> (result: CommandResult) {
        store.remove_way_with_index(self.way.id);
        CommandResult::success(true)
    }

    fn undo(&self, store: &mut OsmStore) -> (result: CommandResult) {
        store.add_way_with_index(self.way.duplicate());
        CommandResult::success(true)
    }

    open spec fn description_text(&self) -> Seq<char> {
        "Delete Way #"@ + decimal_text(self.way.id)
    }

    fn description(&self) -> (text: String) {
        let text = text_with_number("Delete Way #", self.way.id, "");
        proof {
            reveal_strlit("");
            assert(text@ =~= self.description_text());
        }
        text
    }

    open spec fn fits(&self, state: StoreView) -> bool {
        &&& self.records(state)
        &&& state.way_index_exact()
        &&& forall|n: i64| #[trigger] state.ref_counts[n] >= occurrences(self.way.node_refs@, n)
    }

    proof fn lemma_undo_restores(&self, before: StoreView, between: StoreView, after: StoreView) {
        crate::history_laws::lemma_way_back(before, between, after, self.way@);
    }

    proof fn lemma_apply_determined(&self, before: StoreView, one: StoreView, other: StoreView) {
    }
}

/// The mathematical value of a list of way references.
pub open spec fn references_view(references: Seq<(i64, Vec<usize>)>) -> Seq<(i64, Seq<usize>)> {
    Seq::new(references.len(), |i: int| (references[i].0, references[i].1@))
}

/// The mathematical values of a list of ways.
pub open spec fn way_views(ways: Seq<OsmWay>) -> Seq<WayView> {
    Seq::new(ways.len(), |i: int| ways[i]@)
}

/// The store after the node was taken out of each way of the list in turn.
pub open spec fn strip_all(state: StoreView, node_id: i64, references: Seq<(i64, Seq<usize>)>) -> StoreView
    decreases references.len(),
{
    if references.len() == 0 {
        state
    } else {
        strip_all(state, node_id, references.drop_last()).stripped(references.last().0, node_id)
    }
}

/// The store after each way of the list was removed in turn.
pub open spec fn drop_ways(state: StoreView, ways: Seq<WayView>) -> StoreView
    decreases ways.len(),
{
    if ways.len() == 0 {
        state
    } else {
        drop_ways(state, ways.drop_last()).without_way(ways.last().id)
    }
}

/// The store after each way of the list was added in turn.
pub open spec fn put_ways(state: StoreView, ways: Seq<WayView>) -> StoreView
    decreases ways.len(),
{
    if ways.len() == 0 {
        state
    } else {
        put_ways(state, ways.drop_last()).with_way(ways.last())
    }
}

/// The store after the node was put back into each way of the list in turn,
/// at the positions recorded for the way.
pub open spec fn restore_all(
    state: StoreView,
    node_id: i64,
    references: Seq<(i64, Seq<usize>)>,
) -> StoreView
    decreases references.len(),
{
    if references.len() == 0 {
        state
    } else {
        restore_all(state, node_id, references.drop_last()).restored(
            references.last().0,
            node_id,
            references.last().1,
        )
    }
}

/// Removes a node: takes it out of every way that refers to it, removes the
/// ways that are left with fewer than two nodes, then removes the node.
pub struct DeleteNodeCommand {
    pub node: OsmNode,
    /// For each way that refers to the node, the positions at which it does.
    pub way_references: Vec<(i64, Vec<usize>)>,
    /// The ways that are left with fewer than two nodes, as they are left:
    /// without the node.
    pub cascaded_ways: Vec<OsmWay>,
}

impl Command for DeleteNodeCommand {
    open spec fn apply_succeeds(&self, state: StoreView) -> bool {
        true
    }

    open spec fn apply_report(&self, state: StoreView) -> ResultView {
        succeeded(true)
    }

    open spec fn applied(&self, before: StoreView, after: StoreView) -> bool {
        after == drop_ways(
            strip_all(before, self.node.id, references_view(self.way_references@)),
            way_views(self.cascaded_ways@),
        ).without_node(self.node.id)
    }

    open spec fn undo_succeeds(&self, state: StoreView) -> bool {
        true
    }

    open spec fn undo_report(&self, state: StoreView) -> ResultView {
        succeeded(true)
    }

    open spec fn undone(&self, before: StoreView, after: StoreView) -> bool {
        after == restore_all(
            put_ways(before.with_node(self.node@), way_views(self.cascaded_ways@)),
            self.node.id,
            references_view(self.way_references@),
        )
    }

    fn apply(&self, store: &mut OsmStore) -> (result: CommandResult) {
        let ghost start = store@;
        let ghost references = references_view(self.way_references@);
        let ghost cascaded = way_views(self.cascaded_ways@);
        let mut i: usize = 0;
        while i < self.way_references.len()
            invariant
                i <= self.way_references.len(),
                references == references_view(self.way_references@),
                store@.keyed(),
                store@ == strip_all(start, self.node.id, references.take(i as int)),
            decreases self.way_references.len() - i,
        {
            proof {
                lemma_take_step(references, i as int);
            }
            store.remove_node_from_way(self.way_references[i].0, self.node.id);
            i += 1;
        }
        assert(references.take(self.way_references.len() as int) =~= references);
        let ghost stripped = store@;
        let mut j: usize = 0;
        while j < self.cascaded_ways.len()
            invariant
                j <= self.cascaded_ways.len(),
                cascaded == way_views(self.cascaded_ways@),
                store@.keyed(),
                store@ == drop_ways(stripped, cascaded.take(j as int)),
            decreases self.cascaded_ways.len() - j,
        {
            proof {
                lemma_take_step(cascaded, j as int);
            }
            store.remove_way_with_index(self.cascaded_ways[j].id);
            j += 1;
        }
        assert(cascaded.take(self.cascaded_ways.len() as int) =~= cascaded);
        store.remove_node_with_index(self.node.id);
        CommandResult::success(true)
    }

    fn undo(&self, store: &mut OsmStore) -> (result: CommandResult) {
        let ghost references = references_view(self.way_references@);
        let ghost cascaded = way_views(self.cascaded_ways@);
        store.add_node_with_index(self.node.duplicate());
        let ghost start = store@;
        let mut j: usize = 0;
        while j < self.cascaded_ways.len()
            invariant
                j <= self.cascaded_ways.len(),
                cascaded == way_views(self.cascaded_ways@),
                store@.keyed(),
                store@ == put_ways(start, cascaded.take(j as int)),
            decreases self.cascaded_ways.len() - j,
        {
            proof {
                lemma_take_step(cascaded, j as int);
            }
            store.add_way_with_index(self.cascaded_ways[j].duplicate());
            j += 1;
        }
        assert(cascaded.take(self.cascaded_ways.len() as int) =~= cascaded);
        let ghost readded = store@;
        let mut i: usize = 0;
        while i < self.way_references.len()
            invariant
                i <= self.way_references.len(),
                references == references_view(self.way_references@),
                store@.keyed(),
                store@ == restore_all(readded, self.node.id, references.take(i as int)),
            decreases self.way_references.len() - i,
        {
            proof {
                lemma_take_step(references, i as int);
            }
            let reference = &self.way_references[i];
            store.insert_node_to_way(reference.0, self.node.id, reference.1.as_slice());
            i += 1;
        }
        assert(references.take(self.way_references.len() as int) =~= references);
        CommandResult::success(true)
    }

    open spec fn description_text(&self) -> Seq<char> {
        "Delete Node #"@ + decimal_text(self.node.id) + " (affects "@ + decimal_text(
            count_number(self.way_references@.len()),
        ) + " ways, cascades "@ + decimal_text(count_number(self.cascaded_ways@.len()))
            + " way deletions)"@
    }

    fn description(&self) -> (text: String) {
        let start = text_with_number("Delete Node #", self.node.id, " (affects ");
        let affected = text_with_number(
            start.as_str(),
            count_as_number(self.way_references.len()),
            " ways, cascades ",
        );
        text_with_number(
            affected.as_str(),
            count_as_number(self.cascaded_ways.len()),
            " way deletions)",
        )
    }

    open spec fn fits(&self, state: StoreView) -> bool {
        &&& self.records(state)
        &&& state.node_index_exact()
        &&& state.way_index_exact()
        &&& counts_exact(state)
    }

    proof fn lemma_undo_restores(&self, before: StoreView, between: StoreView, after: StoreView) {
        let references = references_view(self.way_references@);
        assert(crate::delete_laws::names_once(before.ways, self.node.id, references)) by {
            assert forall|k: int| 0 <= k < references.len() implies before.ways.contains_key(
                (#[trigger] references[k]).0,
            ) && references[k].1 == positions_of(before.ways[references[k].0].node_refs, self.node.id)
                && references[k].1.len() > 0 by {
                let refs = before.ways[references[k].0].node_refs;
                lemma_occurrences_without(refs, self.node.id, self.node.id);
                lemma_occurrences_contains(refs, self.node.id);
            }
        }
        crate::delete_laws::lemma_node_back(
            before,
            between,
            after,
            self.node@,
            references_view(self.way_references@),
            way_views(self.cascaded_ways@),
        );
    }

    proof fn lemma_apply_determined(&self, before: StoreView, one: StoreView, other: StoreView) {
    }
}

/// A count as a signed number: itself, or the greatest number where it is
/// greater.
pub open spec fn count_number(count: nat) -> i64 {
    if count <= i64::MAX {
        count as i64
    } else {
        i64::MAX
    }
}

fn count_as_number(count: usize) -> (number: i64)
    ensures
        number == count_number(count as nat),
{
    let wide: u64 = count as u64;
    if wide > 0x7fff_ffff_ffff_ffff {
        i64::MAX
    } else {
        wide as i64
    }
}

impl UpdateWayTagsCommand {
    /// Whether the command holds what the way is like in this state.
    pub open spec fn records(&self, state: StoreView) -> bool {
        state.ways.contains_key(self.way_id) && self.way_before(state.ways[self.way_id])
            == state.ways[self.way_id]
    }
}

impl UpdateNodeTagsCommand {
    /// Whether the command holds the tags that the node has in this state.
    pub open spec fn records(&self, state: StoreView) -> bool {
        state.nodes.contains_key(self.node_id) && state.nodes[self.node_id].tags == tags_view(
            self.old_tags@,
        )
    }
}

impl MoveNodeCommand {
    /// Whether the command holds the position that the node has in this state.
    pub open spec fn records(&self, state: StoreView) -> bool {
        state.nodes.contains_key(self.node_id) && state.nodes[self.node_id].lon == self.old_lon
            && state.nodes[self.node_id].lat == self.old_lat
    }
}

impl AddNodeCommand {
    /// Whether the identifier of the node is free in this state.
    pub open spec fn records(&self, state: StoreView) -> bool {
        !state.nodes.contains_key(self.node.id)
    }
}

impl DeleteWayCommand {
    /// Whether the command holds the way as it is in this state.
    pub open spec fn records(&self, state: StoreView) -> bool {
        state.ways.contains_key(self.way.id) && state.ways[self.way.id] == self.way@
    }
}

/// The ways of the list that are left with fewer than two nodes without the
/// node, as they are left, in order.
pub open spec fn cascade_of(state: StoreView, node_id: i64, references: Seq<(i64, Seq<usize>)>) -> Seq<
    WayView,
>
    decreases references.len(),
{
    if references.len() == 0 {
        Seq::empty()
    } else {
        let rest = cascade_of(state, node_id, references.drop_last());
        let way = state.ways[references.last().0];
        if way.node_refs.len() - references.last().1.len() < 2 {
            rest.push(WayView { node_refs: without_node(way.node_refs, node_id), ..way })
        } else {
            rest
        }
    }
}

impl DeleteNodeCommand {
    /// Whether the command holds what the deletion needs of this state: the
    /// node as it is; every way that refers to it, once, with the positions
    /// at which it does; and the ways that are left with fewer than two nodes.
    pub open spec fn records(&self, state: StoreView) -> bool {
        let references = references_view(self.way_references@);
        &&& state.nodes.contains_key(self.node.id)
        &&& state.nodes[self.node.id] == self.node@
        &&& forall|i: int, j: int|
            0 <= i < j < references.len() ==> (#[trigger] references[i]).0 != (
            #[trigger] references[j]).0
        &&& forall|w: i64|
            (exists|k: int| 0 <= k < references.len() && (#[trigger] references[k]).0 == w) <==> (
            #[trigger] state.ways.contains_key(w) && state.ways[w].node_refs.contains(
                self.node.id,
            ))
        &&& forall|k: int|
            0 <= k < references.len() ==> (#[trigger] references[k]).1 == positions_of(
                state.ways[references[k].0].node_refs,
                self.node.id,
            )
        &&& way_views(self.cascaded_ways@) == cascade_of(state, self.node.id, references)
    }
}

/// Any one of the edits of this library.
pub enum EditCommand {
    UpdateWayTags(UpdateWayTagsCommand),
    UpdateNodeTags(UpdateNodeTagsCommand),
    MoveNode(MoveNodeCommand),
    AddNode(AddNodeCommand),
    DeleteWay(DeleteWayCommand),
    DeleteNode(DeleteNodeCommand),
}

impl Command for EditCommand {
    open spec fn apply_succeeds(&self, state: StoreView) -> bool {
        match self {
            EditCommand::UpdateWayTags(c) => c.apply_succeeds(state),
            EditCommand::UpdateNodeTags(c) => c.apply_succeeds(state),
            EditCommand::MoveNode(c) => c.apply_succeeds(state),
            EditCommand::AddNode(c) => c.apply_succeeds(state),
            EditCommand::DeleteWay(c) => c.apply_succeeds(state),
            EditCommand::DeleteNode(c) => c.apply_succeeds(state),
        }
    }

    open spec fn apply_report(&self, state: StoreView) -> ResultView {
        match self {
            EditCommand::UpdateWayTags(c) => c.apply_report(state),
            EditCommand::UpdateNodeTags(c) => c.apply_report(state),
            EditCommand::MoveNode(c) => c.apply_report(state),
            EditCommand::AddNode(c) => c.apply_report(state),
            EditCommand::DeleteWay(c) => c.apply_report(state),
            EditCommand::DeleteNode(c) => c.apply_report(state),
        }
    }

    open spec fn applied(&self, before: StoreView, after: StoreView) -> bool {
        match self {
            EditCommand::UpdateWayTags(c) => c.applied(before, after),
            EditCommand::UpdateNodeTags(c) => c.applied(before, after),
            EditCommand::MoveNode(c) => c.applied(before, after),
            EditCommand::AddNode(c) => c.applied(before, after),
            EditCommand::DeleteWay(c) => c.applied(before, after),
            EditCommand::DeleteNode(c) => c.applied(before, after),
        }
    }

    open spec fn undo_succeeds(&self, state: StoreView) -> bool {
        match self {
            EditCommand::UpdateWayTags(c) => c.undo_succeeds(state),
            EditCommand::UpdateNodeTags(c) => c.undo_succeeds(state),
            EditCommand::MoveNode(c) => c.undo_succeeds(state),
            EditCommand::AddNode(c) => c.undo_succeeds(state),
            EditCommand::DeleteWay(c) => c.undo_succeeds(state),
            EditCommand::DeleteNode(c) => c.undo_succeeds(state),
        }
    }

    open spec fn undo_report(&self, state: StoreView) -> ResultView {
        match self {
            EditCommand::UpdateWayTags(c) => c.undo_report(state),
            EditCommand::UpdateNodeTags(c) => c.undo_report(state),
            EditCommand::MoveNode(c) => c.undo_report(state),
            EditCommand::AddNode(c) => c.undo_report(state),
            EditCommand::DeleteWay(c) => c.undo_report(state),
            EditCommand::DeleteNode(c) => c.undo_report(state),
        }
    }

    open spec fn undone(&self, before: StoreView, after: StoreView) -> bool {
        match self {
            EditCommand::UpdateWayTags(c) => c.undone(before, after),
            EditCommand::UpdateNodeTags(c) => c.undone(before, after),
            EditCommand::MoveNode(c) => c.undone(before, after),
            EditCommand::AddNode(c) => c.undone(before, after),
            EditCommand::DeleteWay(c) => c.undone(before, after),
            EditCommand::DeleteNode(c) => c.undone(before, after),
        }
    }

    fn apply(&self, store: &mut OsmStore) -> (result: CommandResult) {
        match self {
            EditCommand::UpdateWayTags(c) => c.apply(store),
            EditCommand::UpdateNodeTags(c) => c.apply(store),
            EditCommand::MoveNode(c) => c.apply(store),
            EditCommand::AddNode(c) => c.apply(store),
            EditCommand::DeleteWay(c) => c.apply(store),
            EditCommand::DeleteNode(c) => c.apply(store),
        }
    }

    fn undo(&self, store: &mut OsmStore) -> (result: CommandResult) {
        match self {
            EditCommand::UpdateWayTags(c) => c.undo(store),
            EditCommand::UpdateNodeTags(c) => c.undo(store),
            EditCommand::MoveNode(c) => c.undo(store),
            EditCommand::AddNode(c) => c.undo(store),
            EditCommand::DeleteWay(c) => c.undo(store),
            EditCommand::DeleteNode(c) => c.undo(store),
        }
    }

    open spec fn description_text(&self) -> Seq<char> {
        match self {
            EditCommand::UpdateWayTags(c) => c.description_text(),
            EditCommand::UpdateNodeTags(c) => c.description_text(),
            EditCommand::MoveNode(c) => c.description_text(),
            EditCommand::AddNode(c) => c.description_text(),
            EditCommand::DeleteWay(c) => c.description_text(),
            EditCommand::DeleteNode(c) => c.description_text(),
        }
    }

    fn description(&self) -> (text: String) {
        match self {
            EditCommand::UpdateWayTags(c) => c.description(),
            EditCommand::UpdateNodeTags(c) => c.description(),
            EditCommand::MoveNode(c) => c.description(),
            EditCommand::AddNode(c) => c.description(),
            EditCommand::DeleteWay(c) => c.description(),
            EditCommand::DeleteNode(c) => c.description(),
        }
    }

    open spec fn fits(&self, state: StoreView) -> bool {
        match self {
            EditCommand::UpdateWayTags(c) => c.fits(state),
            EditCommand::UpdateNodeTags(c) => c.fits(state),
            EditCommand::MoveNode(c) => c.fits(state),
            EditCommand::AddNode(c) => c.fits(state),
            EditCommand::DeleteWay(c) => c.fits(state),
            EditCommand::DeleteNode(c) => c.fits(state),
        }
    }

    proof fn lemma_undo_restores(&self, before: StoreView, between: StoreView, after: StoreView) {
        match self {
            EditCommand::UpdateWayTags(c) => c.lemma_undo_restores(before, between, after),
            EditCommand::UpdateNodeTags(c) => c.lemma_undo_restores(before, between, after),
            EditCommand::MoveNode(c) => c.lemma_undo_restores(before, between, after),
            EditCommand::AddNode(c) => c.lemma_undo_restores(before, between, after),
            EditCommand::DeleteWay(c) => c.lemma_undo_restores(before, between, after),
            EditCommand::DeleteNode(c) => c.lemma_undo_restores(before, between, after),
        }
    }

    proof fn lemma_apply_determined(&self, before: StoreView, one: StoreView, other: StoreView) {
        match self {
            EditCommand::UpdateWayTags(c) => c.lemma_apply_determined(before, one, other),
            EditCommand::UpdateNodeTags(c) => c.lemma_apply_determined(before, one, other),
            EditCommand::MoveNode(c) => c.lemma_apply_determined(before, one, other),
            EditCommand::AddNode(c) => c.lemma_apply_determined(before, one, other),
            EditCommand::DeleteWay(c) => c.lemma_apply_determined(before, one, other),
            EditCommand::DeleteNode(c) => c.lemma_apply_determined(before, one, other),
        }
    }
}

/// The edit history: the commands that can be undone, and those that were
/// undone and can be redone.
pub struct HistoryManager<C: Command> {
    undo_stack: Vec<C>,
    redo_stack: Vec<C>,
}

impl<C: Command> HistoryManager<C> {
    /// The commands that can be undone, the last one executed last.
    pub closed spec fn undo_list(&self) -> Seq<C> {
        self.undo_stack@
    }

    /// The commands that can be redone, the last one undone last.
    pub closed spec fn redo_list(&self) -> Seq<C> {
        self.redo_stack@
    }

    /// An empty history.
    pub fn new() -> (history: Self)
        ensures
            history.undo_list() == Seq::<C>::empty(),
            history.redo_list() == Seq::<C>::empty(),
    {
        Self { undo_stack: Vec::new(), redo_stack: Vec::new() }
    }

    /// Carries a command out. Where it succeeds it can be undone from now
    /// on, and nothing can be redone; where it fails nothing changes.
    pub fn execute(&mut self, command: C, store: &mut OsmStore) -> (result: CommandResult)
        requires
            old(store)@.keyed(),
        ensures
            final(store)@.keyed(),
            result.success == command.apply_succeeds(old(store)@),
            result@ == command.apply_report(old(store)@),
            command.applied(old(store)@, final(store)@),
            result.success ==> final(self).undo_list() == old(self).undo_list().push(command)
                && final(self).redo_list() == Seq::<C>::empty(),
            !result.success ==> final(self).undo_list() == old(self).undo_list(),
            !result.success ==> final(self).redo_list() == old(self).redo_list(),
            !result.success ==> final(store)@ == old(store)@,
    {
        let result = command.apply(store);
        if result.success {
            self.undo_stack.push(command);
            self.redo_stack.clear();
        }
        result
    }

    /// Takes the last command back. It leaves the undo list either way; where
    /// taking it back succeeds it can be redone. With nothing to undo
    /// nothing changes.
    pub fn undo(&mut self, store: &mut OsmStore) -> (result: CommandResult)
        requires
            old(store)@.keyed(),
        ensures
            final(store)@.keyed(),
            old(self).undo_list().len() == 0 ==> {
                &&& result@ == failed("Nothing to undo"@)
                &&& final(store)@ == old(store)@
                &&& final(self).undo_list() == old(self).undo_list()
                &&& final(self).redo_list() == old(self).redo_list()
            },
            old(self).undo_list().len() > 0 ==> {
                let command = old(self).undo_list().last();
                &&& result.success == command.undo_succeeds(old(store)@)
                &&& result@ == command.undo_report(old(store)@)
                &&& command.undone(old(store)@, final(store)@)
                &&& final(self).undo_list() == old(self).undo_list().drop_last()
                &&& final(self).redo_list() == (if result.success {
                    old(self).redo_list().push(command)
                } else {
                    old(self).redo_list()
                })
            },
    {
        match self.undo_stack.pop() {
            Some(command) => {
                let result = command.undo(store);
                if result.success {
                    self.redo_stack.push(command);
                }
                result
            },
            None => CommandResult::failure("Nothing to undo"),
        }
    }

    /// Carries the last undone command out again. It leaves the redo list
    /// either way; where it succeeds it can be undone. With nothing to redo
    /// nothing changes.
    pub fn redo(&mut self, store: &mut OsmStore) -> (result: CommandResult)
        requires
            old(store)@.keyed(),
        ensures
            final(store)@.keyed(),
            old(self).redo_list().len() == 0 ==> {
                &&& result@ == failed("Nothing to redo"@)
                &&& final(store)@ == old(store)@
                &&& final(self).undo_list() == old(self).undo_list()
                &&& final(self).redo_list() == old(self).redo_list()
            },
            old(self).redo_list().len() > 0 ==> {
                let command = old(self).redo_list().last();
                &&& result.success == command.apply_succeeds(old(store)@)
                &&& result@ == command.apply_report(old(store)@)
                &&& command.applied(old(store)@, final(store)@)
                &&& final(self).redo_list() == old(self).redo_list().drop_last()
                &&& final(self).undo_list() == (if result.success {
                    old(self).undo_list().push(command)
                } else {
                    old(self).undo_list()
                })
            },
    {
        match self.redo_stack.pop() {
            Some(command) => {
                let result = command.apply(store);
                if result.success {
                    self.undo_stack.push(command);
                }
                result
            },
            None => CommandResult::failure("Nothing to redo"),
        }
    }

    /// How many commands can be undone.
    pub fn undo_count(&self) -> (count: usize)
        ensures
            count == self.undo_list().len(),
    {
        self.undo_stack.len()
    }

    /// How many commands can be redone.
    pub fn redo_count(&self) -> (count: usize)
        ensures
            count == self.redo_list().len(),
    {
        self.redo_stack.len()
    }

    /// Forgets every command.
    pub fn clear(&mut self)
        ensures
            final(self).undo_list() == Seq::<C>::empty(),
            final(self).redo_list() == Seq::<C>::empty(),
    {
        self.undo_stack.clear();
        self.redo_stack.clear();
    }
}

impl<C: Command> Default for HistoryManager<C> {
    fn default() -> (history: Self)
        ensures
            history.undo_list() == Seq::<C>::empty(),
            history.redo_list() == Seq::<C>::empty(),
    {
        Self::new()
    }
}

} // verus!
