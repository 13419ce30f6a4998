//! Lineage 2 texture packages, texture images and geodata.

pub mod text;
pub mod bytes;
pub mod utf16;
pub mod reader;
pub mod names;
pub mod properties;
pub mod property_laws;
pub mod package;
pub mod layout;
pub mod tables;
pub mod edits;
pub mod texture_engine;
pub mod adding;
pub mod formats;
pub mod images;
pub mod dxt;
pub mod preview;
pub mod sorting;
pub mod entries;
pub mod listing;
pub mod paths;
pub mod encryption;
pub mod metadata;
pub mod imports;
pub mod batch;
pub mod session;
pub mod importing;
pub mod extract;
pub mod in_place_laws;
pub mod metadata_laws;
pub mod package_laws;
pub mod file_laws;
pub mod adding_laws;
pub mod reference_laws;
pub mod image_laws;
pub mod import_laws;
pub mod replacement_laws;
pub mod mixed_laws;
pub mod table_laws;
pub mod batch_edit_laws;
pub mod recovery_laws;
pub mod attempt_laws;
pub mod block_laws;
pub mod cell_laws;
pub mod region_laws;
pub mod geodata_reading_laws;
pub mod scaling_laws;
pub mod listing_laws;
pub mod notes_laws;
pub mod storage_laws;
pub mod geodata_text_laws;
pub mod layout_laws;
pub mod animation_laws;
pub mod view_laws;
pub mod counting_laws;
pub mod naming_laws;
pub mod group_laws;
pub mod seed_laws;
pub mod search_laws;
pub mod hierarchy_laws;
pub mod appending_laws;
pub mod outcome_laws;
pub mod editor_laws;
pub mod picture_laws;
pub mod preview_laws;
pub mod geodata;
pub mod geodata_region;
pub mod geodata_writer;
pub mod geodata_laws;
pub mod geodata_path;
pub mod geodata_plan;
pub mod texture_resize;
pub mod resize_run;
pub mod resize_metadata;
pub mod app_settings;
pub mod animation;
pub mod appending;
