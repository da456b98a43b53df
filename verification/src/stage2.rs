//! A second stage that holds only its routing rules.
use crate::config::Stage2Rule;
use vstd::prelude::*;

verus! {

/// The rules by which processed messages reach strategies.
pub struct Stage2 {
    pub stage2_rules: Vec<Stage2Rule>,
}

} // verus!
