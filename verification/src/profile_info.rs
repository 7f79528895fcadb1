//! The form that edits the five fields of a profile.
use crate::input::KeyInput;
use crate::profile::S3Profile;
use crate::text_input::{text_input_step, SingleLineInput};
use vstd::prelude::*;

verus! {

/// The field of the form that has the focus.
#[derive(Debug, Default, Clone, Copy, PartialEq, Eq, Structural)]
pub enum SelectedField {
    #[default]
    Name,
    Endpoint,
    Region,
    AccessKeyId,
    SecretAccessKey,
}

/// The place of a field in the form, from 0.
pub open spec fn field_index(f: SelectedField) -> int {
    match f {
        SelectedField::Name => 0,
        SelectedField::Endpoint => 1,
        SelectedField::Region => 2,
        SelectedField::AccessKeyId => 3,
        SelectedField::SecretAccessKey => 4,
    }
}

/// The field at a place of the form.
pub open spec fn field_at(i: int) -> SelectedField {
    if i == 0 {
        SelectedField::Name
    } else if i == 1 {
        SelectedField::Endpoint
    } else if i == 2 {
        SelectedField::Region
    } else if i == 3 {
        SelectedField::AccessKeyId
    } else {
        SelectedField::SecretAccessKey
    }
}

/// The fields of the form in order.
pub const FIELDS: [SelectedField; 5] = [
    SelectedField::Name,
    SelectedField::Endpoint,
    SelectedField::Region,
    SelectedField::AccessKeyId,
    SelectedField::SecretAccessKey,
];

impl SelectedField {
    /// The place of the field in the form.
    pub fn index(self) -> (r: usize)
        ensures
            r == field_index(self),
    {
        match self {
            SelectedField::Name => 0,
            SelectedField::Endpoint => 1,
            SelectedField::Region => 2,
            SelectedField::AccessKeyId => 3,
            SelectedField::SecretAccessKey => 4,
        }
    }

    /// The field after this one, the first after the last.
    pub fn next_field(self) -> (r: SelectedField)
        ensures
            r == field_at((field_index(self) + 1) % 5),
    {
        let current_index = self.index();
        let fields = FIELDS;
        assert(fields@ == seq![
            SelectedField::Name,
            SelectedField::Endpoint,
            SelectedField::Region,
            SelectedField::AccessKeyId,
            SelectedField::SecretAccessKey,
        ]);
        fields[(current_index + 1) % 5]
    }

    /// The field before this one, the last before the first.
    pub fn prev_field(self) -> (r: SelectedField)
        ensures
            r == field_at((field_index(self) + 5 - 1) % 5),
    {
        let current_index = self.index();
        let fields = FIELDS;
        assert(fields@ == seq![
            SelectedField::Name,
            SelectedField::Endpoint,
            SelectedField::Region,
            SelectedField::AccessKeyId,
            SelectedField::SecretAccessKey,
        ]);
        fields[(current_index + 5 - 1) % 5]
    }
}

/// The five inputs of a profile form and the field with the focus.
pub struct ProfileInfo<'a> {
    pub name_input: SingleLineInput<'a>,
    pub endpoint_input: SingleLineInput<'a>,
    pub region_input: SingleLineInput<'a>,
    pub access_key_id_input: SingleLineInput<'a>,
    pub secret_access_key_input: SingleLineInput<'a>,
    pub selected: SelectedField,
}

/// The five fields of a profile, in form order.
pub open spec fn profile_fields(p: S3Profile) -> Seq<Seq<char>> {
    seq![p.name@, p.endpoint@, p.region@, p.access_key_id@, p.secret_access_key@]
}

impl<'a> ProfileInfo<'a> {
    /// The input of the field at place `i` of the form.
    pub open spec fn input_at(&self, i: int) -> SingleLineInput<'a> {
        if i == 0 {
            self.name_input
        } else if i == 1 {
            self.endpoint_input
        } else if i == 2 {
            self.region_input
        } else if i == 3 {
            self.access_key_id_input
        } else {
            self.secret_access_key_input
        }
    }

    /// The texts of the five fields, in form order.
    pub open spec fn texts(&self) -> Seq<Seq<char>> {
        Seq::new(5, |i: int| self.input_at(i).text_view())
    }

    /// Every input is usable, and the focused field is the only active one.
    pub open spec fn wf(&self) -> bool {
        &&& self.name_input.wf()
        &&& self.endpoint_input.wf()
        &&& self.region_input.wf()
        &&& self.access_key_id_input.wf()
        &&& self.secret_access_key_input.wf()
        &&& self.name_input.active == (self.selected == SelectedField::Name)
        &&& self.endpoint_input.active == (self.selected == SelectedField::Endpoint)
        &&& self.region_input.active == (self.selected == SelectedField::Region)
        &&& self.access_key_id_input.active == (self.selected == SelectedField::AccessKeyId)
        &&& self.secret_access_key_input.active == (self.selected
            == SelectedField::SecretAccessKey)
    }

    /// Each input holds one line, with the cursor at its end.
    pub open spec fn fresh(&self) -> bool {
        &&& self.name_input.fresh()
        &&& self.endpoint_input.fresh()
        &&& self.region_input.fresh()
        &&& self.access_key_id_input.fresh()
        &&& self.secret_access_key_input.fresh()
    }

    /// No input masks its text.
    pub open spec fn unmasked(&self) -> bool {
        forall|i: int| 0 <= i < 5 ==> !(#[trigger] self.input_at(i)).hidden
    }

    /// Each input holds the same text area, cursor included, and the same
    /// masking as in `other`.
    pub open spec fn same_inputs(&self, other: &Self) -> bool {
        forall|i: int|
            0 <= i < 5 ==> (#[trigger] self.input_at(i)).textarea == other.input_at(i).textarea
                && self.input_at(i).hidden == other.input_at(i).hidden
    }

    /// The same form but for the input of field `f`.
    pub open spec fn same_except(&self, other: &Self, f: SelectedField) -> bool {
        &&& f != SelectedField::Name ==> self.name_input == other.name_input
        &&& f != SelectedField::Endpoint ==> self.endpoint_input == other.endpoint_input
        &&& f != SelectedField::Region ==> self.region_input == other.region_input
        &&& f != SelectedField::AccessKeyId ==> self.access_key_id_input == other.access_key_id_input
        &&& f != SelectedField::SecretAccessKey ==> self.secret_access_key_input
            == other.secret_access_key_input
    }

    /// The focused field of `self` became that of `new` by the key `event`
    /// (the edit answering `handled`); the other fields stayed.
    pub open spec fn edit_step(&self, new: &Self, event: KeyInput, handled: bool) -> bool {
        &&& new.selected == self.selected
        &&& new.same_except(self, self.selected)
        &&& match self.selected {
            SelectedField::Name => text_input_step(self.name_input, new.name_input, event, handled),
            SelectedField::Endpoint => text_input_step(
                self.endpoint_input,
                new.endpoint_input,
                event,
                handled,
            ),
            SelectedField::Region => text_input_step(
                self.region_input,
                new.region_input,
                event,
                handled,
            ),
            SelectedField::AccessKeyId => text_input_step(
                self.access_key_id_input,
                new.access_key_id_input,
                event,
                handled,
            ),
            SelectedField::SecretAccessKey => text_input_step(
                self.secret_access_key_input,
                new.secret_access_key_input,
                event,
                handled,
            ),
        }
    }

    /// A form filled with the fields of `profile`, the name focused.
    pub fn from_existing(profile: S3Profile) -> (r: Self)
        ensures
            r.wf(),
            r.fresh(),
            r.selected == SelectedField::Name,
            r.texts() == profile_fields(profile),
            r.unmasked(),
    {
        let r = Self {
            name_input: SingleLineInput::new(profile.name, false, true),
            endpoint_input: SingleLineInput::new(profile.endpoint, false, false),
            region_input: SingleLineInput::new(profile.region, false, false),
            access_key_id_input: SingleLineInput::new(profile.access_key_id, false, false),
            secret_access_key_input: SingleLineInput::new(profile.secret_access_key, false, false),
            selected: SelectedField::Name,
        };
        assert(r.texts() =~= profile_fields(profile));
        r
    }

    /// Edits the focused field with a key; says whether the key was taken.
    pub fn edit_current_field(&mut self, event: KeyInput) -> (r: bool)
        requires
            old(self).wf(),
        ensures
            final(self).wf(),
            old(self).edit_step(&*final(self), event, r),
    {
        match self.selected {
            SelectedField::Name => self.name_input.handle_text_input(event),
            SelectedField::Endpoint => self.endpoint_input.handle_text_input(event),
            SelectedField::Region => self.region_input.handle_text_input(event),
            SelectedField::AccessKeyId => self.access_key_id_input.handle_text_input(event),
            SelectedField::SecretAccessKey => self.secret_access_key_input.handle_text_input(event),
        }
    }

    /// The profile the form holds.
    pub fn to_profile(&self) -> (r: S3Profile)
        requires
            self.wf(),
        ensures
            profile_fields(r) == self.texts(),
    {
        let r = S3Profile::new(
            self.name_input.text().clone(),
            self.endpoint_input.text().clone(),
            self.region_input.text().clone(),
            self.access_key_id_input.text().clone(),
            self.secret_access_key_input.text().clone(),
        );
        assert(profile_fields(r) =~= self.texts());
        r
    }

    /// Moves the focus to the next field, the first after the last.
    pub fn select_next(&mut self)
        requires
            old(self).wf(),
        ensures
            final(self).wf(),
            final(self).selected == field_at((field_index(old(self).selected) + 1) % 5),
            final(self).texts() == old(self).texts(),
            final(self).fresh() == old(self).fresh(),
            final(self).same_inputs(&*old(self)),
    {
        self.selected = self.selected.next_field();
        self.update_styles();
    }

    /// Moves the focus to the previous field, the last before the first.
    pub fn select_previous(&mut self)
        requires
            old(self).wf(),
        ensures
            final(self).wf(),
            final(self).selected == field_at((field_index(old(self).selected) + 5 - 1) % 5),
            final(self).texts() == old(self).texts(),
            final(self).fresh() == old(self).fresh(),
            final(self).same_inputs(&*old(self)),
    {
        self.selected = self.selected.prev_field();
        self.update_styles();
    }

    /// Makes the focused field the only active one.
    fn update_styles(&mut self)
        requires
            old(self).name_input.wf(),
            old(self).endpoint_input.wf(),
            old(self).region_input.wf(),
            old(self).access_key_id_input.wf(),
            old(self).secret_access_key_input.wf(),
        ensures
            final(self).wf(),
            final(self).selected == old(self).selected,
            final(self).texts() == old(self).texts(),
            final(self).fresh() == old(self).fresh(),
            final(self).same_inputs(&*old(self)),
    {
        self.name_input.deactivate_input();
        self.endpoint_input.deactivate_input();
        self.region_input.deactivate_input();
        self.access_key_id_input.deactivate_input();
        self.secret_access_key_input.deactivate_input();
        match self.selected {
            SelectedField::Name => {
                self.name_input.activate_input();
            },
            SelectedField::Endpoint => {
                self.endpoint_input.activate_input();
            },
            SelectedField::Region => {
                self.region_input.activate_input();
            },
            SelectedField::AccessKeyId => {
                self.access_key_id_input.activate_input();
            },
            SelectedField::SecretAccessKey => {
                self.secret_access_key_input.activate_input();
            },
        }
        assert(self.texts() =~= old(self).texts());
    }
}

impl<'a> Default for ProfileInfo<'a> {
    fn default() -> (r: Self)
        ensures
            r.wf(),
            r.fresh(),
            r.selected == SelectedField::Name,
            r.texts() == seq![Seq::<char>::empty(); 5],
            r.unmasked(),
    {
        let r = Self {
            name_input: SingleLineInput::new(String::new(), false, true),
            endpoint_input: SingleLineInput::new(String::new(), false, false),
            region_input: SingleLineInput::new(String::new(), false, false),
            access_key_id_input: SingleLineInput::new(String::new(), false, false),
            secret_access_key_input: SingleLineInput::new(String::new(), false, false),
            selected: SelectedField::Name,
        };
        assert(r.texts() =~= seq![Seq::<char>::empty(); 5]);
        r
    }
}

/// Moving the focus down then up, or up then down, comes back to the
/// same field; five moves down come back too.
pub proof fn lemma_field_moves(f: SelectedField)
    ensures
        field_at((field_index(field_at((field_index(f) + 1) % 5)) + 5 - 1) % 5) == f,
        field_at((field_index(field_at((field_index(f) + 5 - 1) % 5)) + 1) % 5) == f,
        ({
            let step = |g: SelectedField| field_at((field_index(g) + 1) % 5);
            step(step(step(step(step(f))))) == f
        }),
{
}

} // verus!
