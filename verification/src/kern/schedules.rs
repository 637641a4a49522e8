pub mod apply;
pub mod generate;
pub mod longest_common_coherent_subsequence;
pub mod prepare_entries;
pub mod update_buchfahrplan;
