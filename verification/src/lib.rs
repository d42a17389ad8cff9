//! The verified core of a document scanner: naming and ordering the files of a
//! document library, keeping a crash-proof scanning session, recognising a page
//! on the scanner mat, and writing and re-reading the PDF files it produces.

pub mod atomic_file;
pub mod autocapture;
pub mod bilevel;
pub mod camera;
pub mod capture_laws;
pub mod detect;
pub mod detect_laws;
pub mod dialogs;
pub mod document;
pub mod enhance;
pub mod file_actions;
pub mod file_laws;
pub mod folders;
pub mod formatting;
pub mod jpeg_header;
pub mod library;
pub mod library_screen;
pub mod library_view;
pub mod messages;
pub mod name_laws;
pub mod natural;
pub mod order;
pub mod page_laws;
pub mod pages;
pub mod path_set;
pub mod paths;
pub mod pdf_laws;
pub mod pdf_layout;
pub mod pdf_numbers;
pub mod pdf_reading;
pub mod pdf_writing;
pub mod pdf_objects;
pub mod picture_laws;
pub mod pipeline;
pub mod raster;
pub mod recompress;
pub mod recovery;
pub mod regions;
pub mod review;
pub mod rotation;
pub mod saving;
pub mod scan;
pub mod scan_flow;
pub mod screen_laws;
pub mod search_laws;
pub mod series_laws;
pub mod session;
pub mod session_names;
pub mod snapshot;
pub mod sort_laws;
pub mod storage;
pub mod sync;
pub mod text;
pub mod viewport;
pub mod workspace;
