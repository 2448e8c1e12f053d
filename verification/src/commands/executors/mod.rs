pub mod background;
pub mod cd;
pub mod command_type;
pub mod echo;
pub mod help;
pub mod history;
pub mod jobs;
pub mod pipeline;
pub mod pipeline_transfer;
