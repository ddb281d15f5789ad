//! The settings of the designer, and the dialog in which they are changed.

use vstd::prelude::*;

verus! {

/// On which side of the mask the soft keys stand.
#[derive(Clone, Copy, Debug, PartialEq, Eq, Structural)]
pub enum SoftKeyMaskOrientation {
    RightRight,
    LeftLeft,
    TopTop,
    BottomBottom,
}

/// From which corner the soft keys are laid out.
#[derive(Clone, Copy, Debug, PartialEq, Eq, Structural)]
pub enum SoftKeyOrder {
    TopRight,
    BottomRight,
    TopLeft,
    BottomLeft,
}

/// The version of the virtual terminal that a design is made for.
#[derive(Clone, Copy, Debug, PartialEq, Eq, Structural)]
pub enum VtVersion {
    Version2,
    Version3,
    Version4,
    Version5,
    Version6,
}

/// The settings that are kept between sessions.
#[derive(Clone, Copy, Debug, PartialEq, Eq, Structural)]
pub struct DesignerSettings {
    pub softkey_key_width: u16,
    pub softkey_key_height: u16,
    pub softkey_mask_orientation: SoftKeyMaskOrientation,
    pub softkey_mask_key_order: SoftKeyOrder,
    pub vt_version: VtVersion,
}

impl Default for DesignerSettings {
    /// The settings of a first session.
    fn default() -> (r: DesignerSettings)
        ensures
            r == (DesignerSettings {
                softkey_key_width: 80,
                softkey_key_height: 80,
                softkey_mask_orientation: SoftKeyMaskOrientation::RightRight,
                softkey_mask_key_order: SoftKeyOrder::TopRight,
                vt_version: VtVersion::Version3,
            }),
    {
        DesignerSettings {
            softkey_key_width: 80,
            softkey_key_height: 80,
            softkey_mask_orientation: SoftKeyMaskOrientation::RightRight,
            softkey_mask_key_order: SoftKeyOrder::TopRight,
            vt_version: VtVersion::Version3,
        }
    }
}

/// What the user did in the settings dialog during one frame.
#[derive(Clone, Copy, Debug, PartialEq, Eq, Structural)]
pub enum DialogInput {
    /// Neither of the two buttons was pressed.
    Nothing,
    /// The settings as edited are to be taken over.
    Apply,
    /// The dialog is to be closed and the edits dropped.
    Cancel,
}

/// The settings dialog: the settings in force, and a copy of them that the
/// user edits while the dialog is shown. The copy is made afresh each time
/// the dialog opens, which the dialog knows by remembering whether it was
/// shown in the frame before.
#[derive(Clone, Copy, Debug, PartialEq, Eq, Structural)]
pub struct SettingsDialog {
    /// Whether the dialog is shown.
    pub show: bool,
    /// Whether the dialog was shown in the frame before.
    pub shown_last_frame: bool,
    /// The settings in force.
    pub settings: DesignerSettings,
    /// The width of a key, in force.
    pub key_width: u16,
    /// The height of a key, in force.
    pub key_height: u16,
    /// The settings as edited in the dialog.
    pub temp: DesignerSettings,
    /// The width of a key as edited in the dialog.
    pub temp_key_width: u16,
    /// The height of a key as edited in the dialog.
    pub temp_key_height: u16,
}

impl SettingsDialog {
    /// The dialog after the start of a frame: where it is shown and was not
    /// shown the frame before, the copy to edit is made afresh from what is
    /// in force.
    pub open spec fn after_begin(self) -> SettingsDialog {
        if !self.show {
            self
        } else if self.shown_last_frame {
            self
        } else {
            SettingsDialog {
                shown_last_frame: true,
                temp: self.settings,
                temp_key_width: self.key_width,
                temp_key_height: self.key_height,
                ..self
            }
        }
    }

    /// The dialog after the end of a frame in which the user did `input`.
    /// Applying puts the edited copy in force and closes the dialog;
    /// cancelling closes it and leaves in force what was. A dialog that is
    /// not shown stays as it is.
    pub open spec fn after_end(self, input: DialogInput) -> SettingsDialog {
        if !self.show {
            self
        } else {
            match input {
                DialogInput::Nothing => self,
                DialogInput::Apply => SettingsDialog {
                    show: false,
                    shown_last_frame: false,
                    settings: self.temp,
                    key_width: self.temp_key_width,
                    key_height: self.temp_key_height,
                    ..self
                },
                DialogInput::Cancel => SettingsDialog { show: false, shown_last_frame: false, ..self },
            }
        }
    }

    /// A dialog that is closed, with the settings kept from the last session
    /// in force, or those of a first session where none were kept. A key is
    /// 80 wide and 80 high.
    pub fn new(stored: Option<DesignerSettings>) -> (r: SettingsDialog)
        ensures
            r == (SettingsDialog {
                show: false,
                shown_last_frame: false,
                settings: match stored {
                    Some(settings) => settings,
                    None => (DesignerSettings {
                        softkey_key_width: 80,
                        softkey_key_height: 80,
                        softkey_mask_orientation: SoftKeyMaskOrientation::RightRight,
                        softkey_mask_key_order: SoftKeyOrder::TopRight,
                        vt_version: VtVersion::Version3,
                    }),
                },
                key_width: 80,
                key_height: 80,
                temp: r.settings,
                temp_key_width: 80,
                temp_key_height: 80,
            }),
    {
        let settings = match stored {
            Some(settings) => settings,
            None => DesignerSettings::default(),
        };
        SettingsDialog {
            show: false,
            shown_last_frame: false,
            settings,
            key_width: 80,
            key_height: 80,
            temp: settings,
            temp_key_width: 80,
            temp_key_height: 80,
        }
    }

    /// Asks for the dialog to be shown from the next frame on.
    pub fn open(&mut self)
        ensures
            *final(self) == (SettingsDialog { show: true, ..*old(self) }),
    {
        self.show = true;
    }

    /// Starts a frame: makes the copy to edit afresh if the dialog has just
    /// opened.
    pub fn begin_frame(&mut self)
        ensures
            *final(self) == old(self).after_begin(),
    {
        if self.show {
            if !self.shown_last_frame {
                self.temp = self.settings;
                self.temp_key_width = self.key_width;
                self.temp_key_height = self.key_height;
            }
            self.shown_last_frame = true;
        }
    }

    /// Ends a frame in which the user did `input`. Returns the settings to
    /// keep for the next session when they were applied.
    pub fn end_frame(&mut self, input: DialogInput) -> (r: Option<DesignerSettings>)
        ensures
            *final(self) == old(self).after_end(input),
            r == (if old(self).show && input == DialogInput::Apply {
                Some(old(self).temp)
            } else {
                None
            }),
    {
        if !self.show {
            return None;
        }
        let mut stored: Option<DesignerSettings> = None;
        match input {
            DialogInput::Apply => {
                self.settings = self.temp;
                self.key_width = self.temp_key_width;
                self.key_height = self.temp_key_height;
                stored = Some(self.settings);
                self.show = false;
            },
            DialogInput::Cancel => {
                self.show = false;
            },
            DialogInput::Nothing => {},
        }
        if !self.show {
            self.shown_last_frame = false;
        }
        stored
    }
}

/// Edits that are cancelled leave no trace: whatever was edited in a dialog
/// that is then cancelled, the dialog shows what is in force when it is
/// opened again, and what is in force is what it was.
pub proof fn cancelled_edits_are_dropped(dialog: SettingsDialog, edited: DesignerSettings, key_width: u16, key_height: u16)
    requires
        dialog.show,
    ensures
        ({
            let edits = SettingsDialog { temp: edited, temp_key_width: key_width, temp_key_height: key_height, ..dialog };
            let reopened = SettingsDialog { show: true, ..edits.after_end(DialogInput::Cancel) }.after_begin();
            &&& reopened.settings == dialog.settings
            &&& reopened.key_width == dialog.key_width
            &&& reopened.key_height == dialog.key_height
            &&& reopened.temp == dialog.settings
            &&& reopened.temp_key_width == dialog.key_width
            &&& reopened.temp_key_height == dialog.key_height
        }),
{
}

/// While the dialog stays open, the start of a frame leaves the edits alone:
/// the copy is made afresh once, when the dialog opens, and not again.
pub proof fn edits_last_while_the_dialog_is_open(dialog: SettingsDialog)
    requires
        dialog.show,
    ensures
        dialog.after_begin().after_begin() == dialog.after_begin(),
        dialog.after_begin().after_end(DialogInput::Nothing).after_begin() == dialog.after_begin(),
        dialog.shown_last_frame ==> dialog.after_begin() == dialog,
{
}

} // verus!
