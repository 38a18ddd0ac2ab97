//! What the overlay shows, apart from drawing it.
pub mod arrangement_laws;
pub mod assembly_laws;
pub mod brake_limit;
pub mod brake_limit_laws;
pub mod brake_limit_onset;
pub mod brake_limit_report;
pub mod brake_limit_steps;
pub mod canvas;
pub mod classic;
pub mod classic_laws;
pub mod color;
pub mod color_laws;
pub mod composition_laws;
pub mod config_panel;
pub mod detail_laws;
pub mod display_laws;
pub mod energy_laws;
pub mod geometry;
pub mod glow;
pub mod glow_laws;
pub mod glow_upload;
pub mod history;
pub mod history_laws;
pub mod hud;
pub mod hud_laws;
pub mod hud_layout;
pub mod instrument_laws;
pub mod instruments;
pub mod label_laws;
pub mod labels;
pub mod line_laws;
pub mod overlay;
pub mod overlay_laws;
pub mod palette;
pub mod panel_laws;
pub mod segments;
pub mod shape_laws;
pub mod shapes;
pub mod stadium;
pub mod strip_laws;
pub mod stroke;
pub mod stroke_laws;
pub mod surface_laws;
pub mod time_axis;
pub mod trace_laws;
pub mod traces;
pub mod track_strip;
pub mod window;
