pub mod all_ip;
pub mod capute_isn;
pub mod for_main;
pub mod fragmenting;
pub mod help_function;
pub mod net_filter_queue;
pub mod random;
pub mod sni_parser;
pub mod tcp_ip;
