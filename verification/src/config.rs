//! The settings as an editor shows them: for each keyword the value that
//! was entered last, and whether it was refused.

use crate::parser::{find_setting, setting_of, Setting};
use crate::text::{after, find_char, has_char, offset_of, to_chars, to_text, trim, trimmed};
use vstd::prelude::*;
use vstd::string::StringExecFns;

verus! {

/// The value of each setting as text, with a mark that is set where the
/// value did not read.
#[derive(Debug, PartialEq)]
pub struct ConfigLines {
    /// The axiom.
    pub start: (String, bool),
    pub iter: (String, bool),
    pub initial_pos: (String, bool),
    pub initial_rot: (String, bool),
    pub initial_thickness: (String, bool),
    pub background_color: (String, bool),
    pub initial_color: (String, bool),
    pub canvas: (String, bool),
    pub seed: (String, bool),
    pub injections: (String, bool),
}

/// The value that a line shows for its setting: what stands from the first
/// space on, without the white space around it.
pub open spec fn shown_value(line: Seq<char>) -> Seq<char> {
    trimmed(line.skip(offset_of(line, ' ')))
}

/// The entries after `line` has been entered with the mark `error`. A line
/// changes the entry of the setting whose keyword it begins with, and only
/// where it holds a space.
pub open spec fn entries_after(
    entries: Map<Setting, (Seq<char>, bool)>,
    line: Seq<char>,
    error: bool,
) -> Map<Setting, (Seq<char>, bool)> {
    if has_char(line, ' ') && setting_of(line) is Some {
        entries.insert(setting_of(line)->0, (shown_value(line), error))
    } else {
        entries
    }
}

impl View for ConfigLines {
    type V = Map<Setting, (Seq<char>, bool)>;

    open spec fn view(&self) -> Map<Setting, (Seq<char>, bool)> {
        Map::new(|setting: Setting| true, |setting: Setting| self.entry(setting))
    }
}

impl ConfigLines {
    /// The entry of a setting: its value by its characters, and its mark.
    pub open spec fn entry(&self, setting: Setting) -> (Seq<char>, bool) {
        match setting {
            Setting::Axiom => (self.start.0@, self.start.1),
            Setting::Iter => (self.iter.0@, self.iter.1),
            Setting::InitialRot => (self.initial_rot.0@, self.initial_rot.1),
            Setting::InitialPos => (self.initial_pos.0@, self.initial_pos.1),
            Setting::InitialThickness => (self.initial_thickness.0@, self.initial_thickness.1),
            Setting::Background => (self.background_color.0@, self.background_color.1),
            Setting::InitialColor => (self.initial_color.0@, self.initial_color.1),
            Setting::Canvas => (self.canvas.0@, self.canvas.1),
            Setting::Seed => (self.seed.0@, self.seed.1),
            Setting::Inject => (self.injections.0@, self.injections.1),
        }
    }

    /// Enters a line: the value that it shows takes the place of the one
    /// that its setting had, together with the mark. A line without a space,
    /// or one that begins with no keyword, changes nothing.
    pub fn update(&mut self, line: &str, error: bool)
        ensures
            final(self)@ == entries_after(old(self)@, line@, error),
    {
        let ghost before = self@;
        let chars = to_chars(line);
        let text = chars.as_slice();
        let space = find_char(text, ' ');
        if space >= text.len() {
            assert(self@ =~= before);
            return ;
        }
        let value = to_text(trim(after(text, space)));
        match find_setting(text) {
            Some(Setting::Axiom) => {
                self.start = (value, error);
            },
            Some(Setting::Iter) => {
                self.iter = (value, error);
            },
            Some(Setting::InitialRot) => {
                self.initial_rot = (value, error);
            },
            Some(Setting::InitialPos) => {
                self.initial_pos = (value, error);
            },
            Some(Setting::InitialThickness) => {
                self.initial_thickness = (value, error);
            },
            Some(Setting::Background) => {
                self.background_color = (value, error);
            },
            Some(Setting::InitialColor) => {
                self.initial_color = (value, error);
            },
            Some(Setting::Canvas) => {
                self.canvas = (value, error);
            },
            Some(Setting::Seed) => {
                self.seed = (value, error);
            },
            Some(Setting::Inject) => {
                self.injections = (value, error);
            },
            None => {},
        }
        proof {
            assert(self@ =~= entries_after(before, line@, error));
        }
    }
}

impl ConfigLines {
    /// The entries of an empty editor: the values that a specification has
    /// by default, none of them marked but the axiom, which is missing.
    pub open spec fn default_entries() -> Map<Setting, (Seq<char>, bool)> {
        Map::new(
            |setting: Setting| true,
            |setting: Setting|
                match setting {
                    Setting::Axiom => (Seq::<char>::empty(), true),
                    Setting::Iter => ("1"@, false),
                    Setting::InitialPos => ("375,560"@, false),
                    Setting::InitialRot => ("0"@, false),
                    Setting::InitialThickness => ("1"@, false),
                    Setting::Background => ("white"@, false),
                    Setting::InitialColor => ("black"@, false),
                    Setting::Canvas => ("750,750"@, false),
                    Setting::Seed => ("Default Seed"@, false),
                    Setting::Inject => (Seq::<char>::empty(), false),
                },
        )
    }
}

impl Default for ConfigLines {
    /// The entries of an empty editor.
    fn default() -> (lines: Self)
        ensures
            lines@ == ConfigLines::default_entries(),
    {
        let lines = ConfigLines {
            start: (String::new(), true),
            iter: (String::from_str("1"), false),
            initial_pos: (String::from_str("375,560"), false),
            initial_rot: (String::from_str("0"), false),
            initial_thickness: (String::from_str("1"), false),
            background_color: (String::from_str("white"), false),
            initial_color: (String::from_str("black"), false),
            canvas: (String::from_str("750,750"), false),
            seed: (String::from_str("Default Seed"), false),
            injections: (String::new(), false),
        };
        proof {
            assert(lines@ =~= ConfigLines::default_entries());
        }
        lines
    }
}

} // verus!
