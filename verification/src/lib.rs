use vstd::prelude::*;

pub mod accordion;
pub mod alert_dialog;
pub mod badge;
pub mod bubble;
pub mod button;
pub mod button_group;
pub mod calendar;
pub mod carousel;
pub mod chart;
pub mod command;
pub mod context_menu;
pub mod data_table;
pub mod date;
pub mod date_picker;
pub mod dialog;
pub mod direction;
pub mod drawer;
pub mod dropdown_menu;
pub mod input_otp;
pub mod keys;
pub mod marker;
pub mod menu;
pub mod menubar;
pub mod message_scroller;
pub mod modal;
pub mod navigation_menu;
pub mod pagination;
pub mod popover;
pub mod roving;
pub mod seqs;
pub mod text;

verus! {
}
