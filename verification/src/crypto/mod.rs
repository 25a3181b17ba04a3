pub mod diversification_nonce;
pub use self::diversification_nonce::DiversificationNonce;
