pub mod planner_core;
