//! A compiler for asset catalogs.
//!
//! Asset catalogs and `.icon` bundles are turned into `.car` archives: a
//! container of numbered blocks ([`bom`]) that holds renditions, their keys and
//! the lookup tables over them ([`car`]).  Everything in this crate works on
//! values in memory; reading and writing files is left to the caller.

pub mod app_icon_laws;
pub mod archive;
pub mod archive_laws;
pub mod bitmapkeys;
pub mod bom;
pub mod brand;
pub mod brand_laws;
pub mod bundle_laws;
pub mod bytes;
pub mod canvas;
pub mod car;
pub mod catalog;
pub mod catalog_laws;
pub mod compiler;
pub mod compress;
pub mod consistency;
pub mod csi;
pub mod csi_laws;
pub mod device_icons;
pub mod effect_laws;
pub mod entries;
pub mod entry_laws;
pub mod facets;
pub mod file_laws;
pub mod files;
pub mod fill_laws;
pub mod format_laws;
pub mod formats;
pub mod grouping;
pub mod grouping_laws;
pub mod icns;
pub mod icon_bundle;
pub mod icon_car;
pub mod icon_effects;
pub mod icon_json;
pub mod icon_laws;
pub mod icon_names;
pub mod icon_renditions;
pub mod index;
pub mod json;
pub mod lookup_laws;
pub mod naming;
pub mod number_laws;
pub mod order;
pub mod output_laws;
pub mod outputs;
pub mod packer;
pub mod palette;
pub mod palette_laws;
pub mod part_laws;
pub mod patterns;
pub mod pixel_laws;
pub mod pixels;
pub mod platform;
pub mod plist;
pub mod project;
pub mod rendition;
pub mod report;
pub mod report_laws;
pub mod rle;
pub mod scaling;
pub mod set_laws;
pub mod sheet_laws;
pub mod sheets;
pub mod store_laws;
pub mod svg;
pub mod table_laws;
pub mod text;
pub mod tree_laws;

