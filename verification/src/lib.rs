//! The verified core of a dashboard for rootless Podman quadlets: unit
//! kinds and naming rules, the parsed unit model, URLs and navigation,
//! group moves, the pod form's checks and plans, log grouping, and the
//! rules every page applies to what it is posted.
use vstd::prelude::*;

pub mod decimal;
pub mod display;
pub mod drafts;
pub mod groups;
pub mod handlers;
pub mod iniedit;
pub mod kind;
pub mod logs;
pub mod naming;
pub mod nav;
pub mod pod_rows;
pub mod podplan;
pub mod pods;
pub mod prepare;
pub mod sections;
pub mod status;
pub mod text;
pub mod unit;
