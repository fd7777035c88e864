pub mod api;
pub mod bytes;
pub mod chunks;
pub mod crypto;
pub mod datetime;
pub mod error;
pub mod file_run;
pub mod folder;
pub mod folder_run;
pub mod format;
pub mod intake;
pub mod integrity;
pub mod keys;
pub mod link;
pub mod names;
pub mod nodes;
pub mod notices;
pub mod order;
pub mod plan;
pub mod queue;
pub mod rows;
pub mod settings;
pub mod speed;
pub mod start;
pub mod task_run;
pub mod tasks;
pub mod text;
pub mod textmap;
pub mod transfer;
