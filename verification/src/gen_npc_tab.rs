//! The tab that generates a record: it offers the kinds of record there are,
//! then field by field a few options to pick from, and shows the finished
//! record at the end.
//!
//! For each field the tab offers three times as many options as the field
//! takes values, drawn at random from the options that are open. Clicking an
//! option selects it or takes the selection back; once as many are selected
//! as the field takes, they are committed.

use crate::blueprint::{BlueprintModel, RecordModel, StringMap};
use crate::config::all_valid;
use crate::npc_builder::{
    all_allowed, current_field, submit_outcome, FieldInfoModel, NpcBlueprint, NpcBuilder,
    SetFieldError,
};
use crate::ordered_map::{
    has_key, keys_distinct, lemma_position_unique, position_of, value_of, with_entry, OrderedMap,
};
use crate::utils::pick_positions;
use vstd::pervasive::unreached;
use vstd::prelude::*;

verus! {

/// The kinds of record there are, by name.
pub type Blueprints = OrderedMap<NpcBlueprint>;

/// Mathematical value of the kinds of record.
pub type BlueprintsModel = Seq<(Seq<char>, BlueprintModel)>;

/// The options on display, each with the mark "selected".
pub type DisplayModel = Seq<(Seq<char>, bool)>;

/// What the tab can be told.
#[derive(Debug, Clone)]
pub enum GenNpcMessage {
    /// Load the blueprints again.
    ReInit,
    /// Generate a record of this kind.
    GenNpc(String),
    /// This option was clicked.
    AttribSelected(String),
}

/// What is left to do for the one who told the tab something.
#[derive(Debug, Clone, Copy, PartialEq, Eq, Structural)]
pub enum TabAction {
    /// Nothing.
    Stay,
    /// Load the blueprints and make a new tab of them.
    Reload,
}

/// The field that is being resolved, as the tab shows it.
#[derive(Debug)]
pub struct BuildingData {
    pub all_options: Vec<String>,
    pub displayed_options: OrderedMap<bool>,
    pub n: usize,
    pub field_name: String,
}

/// Mathematical value of a [`BuildingData`].
pub struct BuildingModel {
    pub all_options: Seq<Seq<char>>,
    pub displayed: DisplayModel,
    pub n: nat,
    pub field_name: Seq<char>,
}

impl DeepView for BuildingData {
    type V = BuildingModel;

    open spec fn deep_view(&self) -> BuildingModel {
        BuildingModel {
            all_options: self.all_options.deep_view(),
            displayed: self.displayed_options@,
            n: self.n as nat,
            field_name: self.field_name@,
        }
    }
}

/// Where the tab stands.
#[derive(Debug)]
pub enum State {
    Error(String),
    Initiated(Blueprints),
    Building(Blueprints, NpcBuilder, BuildingData),
    Finalizing(Blueprints, StringMap),
}

/// Mathematical value of a [`State`]. Of a builder it holds the fields and
/// the record so far.
pub enum StateModel {
    Error(Seq<char>),
    Initiated(BlueprintsModel),
    Building(BlueprintsModel, BlueprintModel, RecordModel, BuildingModel),
    Finalizing(BlueprintsModel, RecordModel),
}

impl DeepView for State {
    type V = StateModel;

    open spec fn deep_view(&self) -> StateModel {
        match self {
            State::Error(text) => StateModel::Error(text@),
            State::Initiated(bps) => StateModel::Initiated(bps@),
            State::Building(bps, builder, bd) => StateModel::Building(
                bps@,
                builder.fields(),
                builder.record(),
                bd.deep_view(),
            ),
            State::Finalizing(bps, npc) => StateModel::Finalizing(bps@, npc@),
        }
    }
}

/// The names that are marked as selected, in the order on display.
pub open spec fn selected_names(display: DisplayModel) -> Seq<Seq<char>>
    decreases display.len(),
{
    if display.len() == 0 {
        Seq::empty()
    } else if display.last().1 {
        selected_names(display.drop_last()).push(display.last().0)
    } else {
        selected_names(display.drop_last())
    }
}

/// The display with the mark of `name` turned over.
pub open spec fn toggled(display: DisplayModel, name: Seq<char>) -> DisplayModel {
    with_entry(display, name, !value_of(display, name))
}

/// What the tab shows is the field that its builder is at: the same name,
/// the same options and the same number of values. The options on display
/// are among them, each once.
pub open spec fn fits(fields: BlueprintModel, record: RecordModel, bd: BuildingModel) -> bool {
    &&& current_field(fields, record) == Some(
        FieldInfoModel { name: bd.field_name, options: bd.all_options, required_count: bd.n },
    )
    &&& keys_distinct(bd.displayed)
    &&& forall|i: int|
        0 <= i < bd.displayed.len() ==> bd.all_options.contains((#[trigger] bd.displayed[i]).0)
}

/// How many options are drawn for a field that takes `n` values out of
/// `open` options: three for each value, and all where there are fewer.
pub open spec fn drawn_count(n: nat, open: nat) -> nat {
    if 3 * n < open {
        3 * n
    } else {
        open
    }
}

/// A display as it is put up for a new field: nothing is selected, at most
/// three options for each value to pick, and not none where there are
/// options and values to pick. Where no option is open twice, the display
/// holds exactly as many as are drawn.
pub open spec fn fresh_offer(bd: BuildingModel) -> bool {
    &&& forall|i: int| 0 <= i < bd.displayed.len() ==> !(#[trigger] bd.displayed[i]).1
    &&& bd.displayed.len() <= drawn_count(bd.n, bd.all_options.len())
    &&& bd.all_options.len() > 0 && bd.n > 0 ==> bd.displayed.len() > 0
    &&& bd.all_options.no_duplicates() ==> bd.displayed.len() == drawn_count(
        bd.n,
        bd.all_options.len(),
    )
}

/// `next` shows the field that a builder with these fields and this record
/// is at, with a fresh display.
pub open spec fn starts_building(
    bps: BlueprintsModel,
    fields: BlueprintModel,
    record: RecordModel,
    next: StateModel,
) -> bool {
    match next {
        StateModel::Building(b, f, r, bd) => b == bps && f == fields && r == record && fits(
            fields,
            record,
            bd,
        ) && fresh_offer(bd),
        _ => false,
    }
}

/// There is a field to go on with, and three times the number of values it
/// takes is a number of options that can be drawn.
pub open spec fn can_offer(info: Option<FieldInfoModel>) -> bool {
    match info {
        Some(i) => i.required_count * 24 <= isize::MAX,
        None => false,
    }
}

/// What the tab says when it is asked for a record and shows no choice of
/// kinds.
pub open spec fn not_initiated_text() -> Seq<char> {
    "Unexpected State, expected: State::Initiated(bps), got Error(\"Switching States\") "@
}

/// What the tab says when an option is clicked and it shows no options.
pub open spec fn not_building_text() -> Seq<char> {
    "Unexpected State, expected: State::Building(blueprints, mut builder, mut bd), got Error(\"Switching States\") "@
}

/// The messages that the tab can take. A record can only be asked for of a
/// kind that there is, an option can only be clicked that is on display, and
/// where fields are left the builder must know one to go on with.
pub open spec fn tab_accepts(s: StateModel, message: GenNpcMessage) -> bool {
    match message {
        GenNpcMessage::ReInit => true,
        GenNpcMessage::GenNpc(name) => match s {
            StateModel::Initiated(bps) => has_key(bps, name@) && can_offer(
                current_field(value_of(bps, name@), Seq::empty()),
            ),
            _ => true,
        },
        GenNpcMessage::AttribSelected(name) => match s {
            StateModel::Building(bps, fields, record, bd) => has_key(bd.displayed, name@) && {
                let chosen = selected_names(toggled(bd.displayed, name@));
                let out = submit_outcome(fields, record, chosen);
                chosen.len() == bd.n && out.answer == Ok::<
                    Option<RecordModel>,
                    crate::npc_builder::SetFieldErrorModel,
                >(None) ==> can_offer(current_field(fields, out.record))
            },
            _ => true,
        },
    }
}

/// Where a message leads. Asking for a record leads from the choice of kinds
/// to the first field of that kind. A click turns the mark of an option
/// over; with as many options marked as the field takes values they are
/// committed, which leads to the next field or to the finished record. A
/// message that does not fit what the tab shows leads to an error.
pub open spec fn tab_steps(s: StateModel, message: GenNpcMessage, next: StateModel) -> bool {
    match message {
        GenNpcMessage::ReInit => next == s,
        GenNpcMessage::GenNpc(name) => match s {
            StateModel::Initiated(bps) => starts_building(
                bps,
                value_of(bps, name@),
                Seq::empty(),
                next,
            ),
            _ => next == StateModel::Error(not_initiated_text()),
        },
        GenNpcMessage::AttribSelected(name) => match s {
            StateModel::Building(bps, fields, record, bd) => {
                let display = toggled(bd.displayed, name@);
                let chosen = selected_names(display);
                if chosen.len() == bd.n {
                    let out = submit_outcome(fields, record, chosen);
                    match out.answer {
                        Ok(Some(npc)) => next == StateModel::Finalizing(bps, npc),
                        Ok(None) => starts_building(bps, fields, out.record, next),
                        Err(_) => false,
                    }
                } else {
                    next == StateModel::Building(
                        bps,
                        fields,
                        record,
                        BuildingModel {
                            all_options: bd.all_options,
                            displayed: display,
                            n: bd.n,
                            field_name: bd.field_name,
                        },
                    )
                }
            },
            _ => next == StateModel::Error(not_building_text()),
        },
    }
}

/// Validity of a state: the blueprints are valid, and what the tab shows is
/// what its builder is at.
pub open spec fn state_wf(s: State) -> bool {
    match s {
        State::Error(_) => true,
        State::Initiated(bps) => bps.wf() && all_valid(&bps),
        State::Building(bps, builder, bd) => bps.wf() && all_valid(&bps) && builder.wf() && fits(
            builder.fields(),
            builder.record(),
            bd.deep_view(),
        ),
        State::Finalizing(bps, npc) => bps.wf() && all_valid(&bps) && npc.wf(),
    }
}

/// The marked names are names on display.
pub proof fn lemma_selected_are_displayed(display: DisplayModel, name: Seq<char>)
    requires
        selected_names(display).contains(name),
    ensures
        has_key(display, name),
    decreases display.len(),
{
    if display.len() > 0 {
        let front = display.drop_last();
        let chosen = selected_names(display);
        let k = choose|k: int| 0 <= k < chosen.len() && chosen[k] == name;
        if display.last().1 && k == chosen.len() - 1 {
            assert(display[display.len() - 1].0 == name);
        } else {
            assert(selected_names(front)[k] == name);
            lemma_selected_are_displayed(front, name);
            let i = choose|i: int| 0 <= i < front.len() && (#[trigger] front[i]).0 == name;
            assert(display[i].0 == name);
        }
    }
}

/// Turning a mark over leaves the names on display as they are.
pub proof fn lemma_toggled_keys(display: DisplayModel, name: Seq<char>)
    requires
        keys_distinct(display),
        has_key(display, name),
    ensures
        keys_distinct(toggled(display, name)),
        toggled(display, name).len() == display.len(),
        forall|i: int|
            0 <= i < display.len() ==> (#[trigger] toggled(display, name)[i]).0 == display[i].0,
{
    let p = position_of(display, name);
    let after = toggled(display, name);
    assert forall|i: int| 0 <= i < display.len() implies (#[trigger] after[i]).0
        == display[i].0 by {}
    assert forall|i: int, j: int| 0 <= i < j < after.len() implies (#[trigger] after[i]).0 != (
    #[trigger] after[j]).0 by {
        assert(after[i].0 == display[i].0);
        assert(after[j].0 == display[j].0);
    }
}

/// The names that are marked as selected, in the order on display.
pub fn selected(display: &OrderedMap<bool>) -> (names: Vec<String>)
    ensures
        names.deep_view() == selected_names(display@),
{
    let mut names: Vec<String> = Vec::new();
    let mut i: usize = 0;
    proof {
        assert(display@.take(0) =~= Seq::empty());
        assert(names.deep_view() =~= Seq::empty());
    }
    while i < display.len()
        invariant
            i <= display@.len(),
            names.deep_view() == selected_names(display@.take(i as int)),
        decreases display@.len() - i,
    {
        let ghost before = names.deep_view();
        proof {
            assert(display@.take(i + 1).drop_last() =~= display@.take(i as int));
            assert(display@.take(i + 1).last() == display@[i as int]);
        }
        if *display.value_at(i) {
            names.push(display.key_at(i).clone());
            proof {
                assert(names.deep_view() =~= before.push(display@[i as int].0));
            }
        }
        i += 1;
    }
    proof {
        assert(display@.take(i as int) =~= display@);
    }
    names
}

/// A copy of a display.
pub fn copy_display(display: &OrderedMap<bool>) -> (copy: OrderedMap<bool>)
    requires
        display.wf(),
    ensures
        copy.wf(),
        copy@ == display@,
{
    let mut copy: OrderedMap<bool> = OrderedMap::new();
    let mut i: usize = 0;
    proof {
        assert(display@.take(0) =~= copy@);
    }
    while i < display.len()
        invariant
            i <= display@.len(),
            display.wf(),
            copy.wf(),
            copy@ == display@.take(i as int),
        decreases display@.len() - i,
    {
        let ghost before = copy@;
        let name = display.key_at(i).clone();
        let flag = *display.value_at(i);
        proof {
            if has_key(before, name@) {
                let k = choose|k: int| 0 <= k < before.len() && (#[trigger] before[k]).0 == name@;
                assert(display@[k].0 != display@[i as int].0);
            }
        }
        copy.insert(name, flag);
        proof {
            assert(display@.take(i + 1) =~= display@.take(i as int).push(display@[i as int]));
        }
        i += 1;
    }
    proof {
        assert(display@.take(i as int) =~= display@);
    }
    copy
}

/// Draws the options to put on display for a field that takes `n` values:
/// three times `n` of the options `xs`, or all of them where there are
/// fewer, none of them marked. An option that is drawn twice, which can only
/// be where `xs` holds it twice, is displayed once.
pub fn roll_options(xs: &Vec<String>, n: usize) -> (display: OrderedMap<bool>)
    requires
        n * 24 <= isize::MAX,
    ensures
        display.wf(),
        forall|i: int| 0 <= i < display@.len() ==> !(#[trigger] display@[i]).1,
        forall|i: int|
            0 <= i < display@.len() ==> xs.deep_view().contains((#[trigger] display@[i]).0),
        display@.len() <= drawn_count(n as nat, xs@.len()),
        xs@.len() > 0 && n > 0 ==> display@.len() > 0,
        xs.deep_view().no_duplicates() ==> display@.len() == drawn_count(n as nat, xs@.len()),
{
    let picked = pick_positions(xs.len(), n * 3);
    let mut display: OrderedMap<bool> = OrderedMap::new();
    let mut i: usize = 0;
    let ghost options = xs.deep_view();
    while i < picked.len()
        invariant
            i <= picked@.len(),
            options == xs.deep_view(),
            picked@.len() == drawn_count(n as nat, xs@.len()),
            picked@.no_duplicates(),
            forall|k: int| 0 <= k < picked@.len() ==> #[trigger] picked@[k] < xs@.len(),
            display.wf(),
            display@.len() <= i,
            i > 0 ==> display@.len() > 0,
            forall|k: int| 0 <= k < display@.len() ==> !(#[trigger] display@[k]).1,
            forall|k: int| 0 <= k < display@.len() ==> options.contains((#[trigger] display@[k]).0),
            options.no_duplicates() ==> display@.len() == i && forall|k: int|
                0 <= k < i ==> (#[trigger] display@[k]).0 == options[picked@[k] as int],
        decreases picked@.len() - i,
    {
        let ghost before = display@;
        let name = xs[picked[i]].clone();
        proof {
            assert(options[picked@[i as int] as int] == name@);
            if has_key(before, name@) {
                let p = position_of(before, name@);
                lemma_position_unique(before, p);
                if options.no_duplicates() {
                    // the same option at two different places that were drawn
                    assert(before[p].0 == options[picked@[p] as int]);
                    assert(picked@[p] != picked@[i as int]);
                    assert(false);
                }
            }
        }
        display.insert(name, false);
        proof {
            let after = display@;
            assert forall|k: int| 0 <= k < after.len() implies !(#[trigger] after[k]).1
                && options.contains(after[k].0) by {
                if has_key(before, name@) {
                    if k != position_of(before, name@) {
                        assert(after[k] == before[k]);
                    }
                } else if k < before.len() {
                    assert(after[k] == before[k]);
                }
            }
            if options.no_duplicates() {
                assert forall|k: int| 0 <= k < i + 1 implies (#[trigger] after[k]).0
                    == options[picked@[k] as int] by {
                    if k < i {
                        assert(after[k] == before[k]);
                    }
                }
            }
        }
        i += 1;
    }
    display
}

/// The state that shows the field that `builder` is at, with a fresh display
/// for it.
pub fn new_building_state(bps: Blueprints, builder: NpcBuilder) -> (state: State)
    requires
        bps.wf(),
        all_valid(&bps),
        builder.wf(),
        can_offer(current_field(builder.fields(), builder.record())),
    ensures
        state_wf(state),
        starts_building(bps@, builder.fields(), builder.record(), state.deep_view()),
{
    match builder.current_field_infos() {
        Some((field_name, opts, n)) => {
            let displayed_options = roll_options(&opts, n);
            let bd = BuildingData { all_options: opts, displayed_options, n, field_name };
            State::Building(bps, builder, bd)
        },
        None => unreached(),
    }
}

/// The tab.
#[derive(Debug)]
pub struct GenNpcTab {
    state: State,
}

impl DeepView for GenNpcTab {
    type V = StateModel;

    closed spec fn deep_view(&self) -> StateModel {
        self.state.deep_view()
    }
}

impl GenNpcTab {
    /// Validity of the tab: that of its state.
    pub closed spec fn wf(&self) -> bool {
        state_wf(self.state)
    }

    /// The tab for the blueprints that were loaded, or for the reason why
    /// none were.
    pub fn new(loaded: Result<Blueprints, String>) -> (tab: GenNpcTab)
        requires
            loaded matches Ok(bps) ==> bps.wf() && all_valid(&bps),
        ensures
            tab.wf(),
            tab.deep_view() == match loaded {
                Ok(bps) => StateModel::Initiated(bps@),
                Err(text) => StateModel::Error(text@),
            },
    {
        match loaded {
            Ok(bps) => GenNpcTab { state: State::Initiated(bps) },
            Err(text) => GenNpcTab { state: State::Error(text) },
        }
    }

    /// Where the tab stands.
    pub fn state(&self) -> (state: &State)
        ensures
            state.deep_view() == self.deep_view(),
            self.wf() ==> state_wf(*state),
    {
        &self.state
    }

    /// Whether the tab can take the message.
    pub fn accepts(&self, message: &GenNpcMessage) -> (ok: bool)
        requires
            self.wf(),
        ensures
            ok == tab_accepts(self.deep_view(), *message),
    {
        match message {
            GenNpcMessage::ReInit => true,
            GenNpcMessage::GenNpc(name) => match &self.state {
                State::Initiated(bps) => match bps.get(name) {
                    Some(bp) => {
                        proof {
                            bp.lemma_views_agree();
                        }
                        let builder = NpcBuilder::new(bp.duplicate());
                        proof {
                            assert(builder.record() =~= Seq::empty());
                            assert(builder.fields() == value_of(bps@, name@));
                        }
                        offer_is_possible(&builder)
                    },
                    None => false,
                },
                _ => true,
            },
            GenNpcMessage::AttribSelected(name) => match &self.state {
                State::Building(_, builder, bd) => match bd.displayed_options.get(name) {
                    Some(flag) => {
                        let mut display = copy_display(&bd.displayed_options);
                        display.insert(name.clone(), !*flag);
                        assert(display@ == toggled(bd.displayed_options@, name@));
                        let selections = selected(&display);
                        if selections.len() == bd.n {
                            let mut trial = builder.duplicate();
                            match trial.set_current_field_val(selections) {
                                Ok(None) => offer_is_possible(&trial),
                                _ => true,
                            }
                        } else {
                            true
                        }
                    },
                    None => false,
                },
                _ => true,
            },
        }
    }

    /// Takes a message and says what is left to do.
    pub fn update(&mut self, message: GenNpcMessage) -> (action: TabAction)
        requires
            old(self).wf(),
            tab_accepts(old(self).deep_view(), message),
        ensures
            final(self).wf(),
            tab_steps(old(self).deep_view(), message, final(self).deep_view()),
            action == if message is ReInit {
                TabAction::Reload
            } else {
                TabAction::Stay
            },
    {
        match self.inner_update(message) {
            Ok(action) => action,
            Err(_) => unreached(),
        }
    }

    /// Takes a message and says what is left to do. A selection that the
    /// builder refuses would be a failure; the options on display are such
    /// that it never does.
    pub fn inner_update(&mut self, message: GenNpcMessage) -> (r: Result<TabAction, SetFieldError>)
        requires
            old(self).wf(),
            tab_accepts(old(self).deep_view(), message),
        ensures
            final(self).wf(),
            tab_steps(old(self).deep_view(), message, final(self).deep_view()),
            r matches Ok(action) && action == if message is ReInit {
                TabAction::Reload
            } else {
                TabAction::Stay
            },
    {
        match message {
            GenNpcMessage::ReInit => Ok(TabAction::Reload),
            GenNpcMessage::GenNpc(name) => {
                let mut tmp_state = State::Error(String::from_str("Switching States"));
                std::mem::swap(&mut self.state, &mut tmp_state);
                let new_state = match tmp_state {
                    State::Initiated(bps) => {
                        let bp = match bps.get(&name) {
                            Some(bp) => {
                                proof {
                                    bp.lemma_views_agree();
                                }
                                bp.duplicate()
                            },
                            None => unreached(),
                        };
                        let builder = NpcBuilder::new(bp);
                        proof {
                            assert(builder.record() =~= Seq::empty());
                            assert(builder.fields() == value_of(bps@, name@));
                        }
                        new_building_state(bps, builder)
                    },
                    _ => State::Error(
                        String::from_str(
                            "Unexpected State, expected: State::Initiated(bps), got Error(\"Switching States\") ",
                        ),
                    ),
                };
                self.state = new_state;
                Ok(TabAction::Stay)
            },
            GenNpcMessage::AttribSelected(s) => {
                let mut tmp_state = State::Error(String::from_str("Switching States"));
                std::mem::swap(&mut self.state, &mut tmp_state);
                let new_state = match tmp_state {
                    State::Building(blueprints, builder, bd) => click(blueprints, builder, bd, s),
                    _ => State::Error(
                        String::from_str(
                            "Unexpected State, expected: State::Building(blueprints, mut builder, mut bd), got Error(\"Switching States\") ",
                        ),
                    ),
                };
                self.state = new_state;
                Ok(TabAction::Stay)
            },
        }
    }
}

/// Whether the builder knows a field to go on with whose options can be
/// drawn.
fn offer_is_possible(builder: &NpcBuilder) -> (ok: bool)
    requires
        builder.wf(),
    ensures
        ok == can_offer(current_field(builder.fields(), builder.record())),
{
    match builder.current_field_infos() {
        Some((_, _, n)) => n <= (isize::MAX as usize) / 24,
        None => false,
    }
}

/// The state after the option `s` was clicked.
fn click(blueprints: Blueprints, builder: NpcBuilder, bd: BuildingData, s: String) -> (state: State)
    requires
        state_wf(State::Building(blueprints, builder, bd)),
        tab_accepts(
            State::Building(blueprints, builder, bd).deep_view(),
            GenNpcMessage::AttribSelected(s),
        ),
    ensures
        state_wf(state),
        tab_steps(
            State::Building(blueprints, builder, bd).deep_view(),
            GenNpcMessage::AttribSelected(s),
            state.deep_view(),
        ),
{
    let ghost fields = builder.fields();
    let ghost record = builder.record();
    let ghost shown = bd.deep_view();
    let mut builder = builder;
    let mut bd = bd;
    let flag = match bd.displayed_options.get(&s) {
        Some(flag) => !*flag,
        None => unreached(),
    };
    proof {
        lemma_toggled_keys(shown.displayed, s@);
    }
    bd.displayed_options.insert(s, flag);
    let ghost display = bd.displayed_options@;
    assert(display == toggled(shown.displayed, s@));
    let selections = selected(&bd.displayed_options);
    if selections.len() == bd.n {
        proof {
            let chosen = selections.deep_view();
            assert forall|j: int| 0 <= j < chosen.len() implies shown.all_options.contains(
                #[trigger] chosen[j],
            ) by {
                assert(chosen.contains(chosen[j]));
                lemma_selected_are_displayed(display, chosen[j]);
                let i = choose|i: int|
                    0 <= i < display.len() && (#[trigger] display[i]).0 == chosen[j];
                assert(shown.displayed[i].0 == chosen[j]);
            }
            assert(all_allowed(chosen, shown.all_options));
        }
        match builder.set_current_field_val(selections) {
            Ok(Some(npc)) => State::Finalizing(blueprints, npc),
            Ok(None) => new_building_state(blueprints, builder),
            Err(_) => unreached(),
        }
    } else {
        proof {
            assert forall|i: int| 0 <= i < display.len() implies shown.all_options.contains(
                (#[trigger] display[i]).0,
            ) by {
                assert(shown.displayed[i].0 == display[i].0);
            }
        }
        State::Building(blueprints, builder, bd)
    }
}

} // verus!
