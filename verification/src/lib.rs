//! A terminal notebook front-end for Jupyter kernels: configuration, notebook files,
//! cell layout, kernel-output handling and the editor-side language-server bridge.

pub mod chars;

pub mod text;
pub mod config;
pub mod layout;
pub mod notebook;
pub mod kernel;
pub mod nb;
pub mod pty;
pub mod lsp;
pub mod view;
pub mod editor;
