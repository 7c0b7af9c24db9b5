pub mod ksp_query;
pub mod ksp_termination_criteria;
pub mod svp;
pub mod yens;
