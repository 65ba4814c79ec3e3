pub mod task_core;
