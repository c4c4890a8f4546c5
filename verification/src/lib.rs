//! Client-side core of an ecash wallet built on blind-signature tokens.
//!
//! The wallet keeps no state between calls. Every operation takes the proofs it
//! works on and gives back what the caller has to store or to send to the mint;
//! the network round trips themselves are left to the caller.
//!
//! A payment starts with [`cashu_wallet::CashuWallet::send`]. Either the proofs
//! at hand pay the amount exactly, or the wallet hands out a split request; the
//! caller sends it to the mint and gives the answer to
//! [`cashu_wallet::CashuWallet::process_split_response`]. A token is redeemed
//! group by group: [`cashu_wallet::CashuWallet::receive`] prepares the split of
//! the next group, and [`cashu_wallet::CashuWallet::receive_split`] takes the
//! mint's answer to it.
//!
//! Amounts are conserved throughout: a split request asks for outputs that are
//! worth what its proofs are worth, and where the mint signs what it was asked
//! to sign, the proofs that come back are worth the same.
//!
//! Nothing is used twice: the outputs of a split have secrets and blinding
//! factors that differ from one another, and no output carries the secret of
//! a proof that the split gives up or of the token that is redeemed.

pub mod amount;
pub mod blinded_messages;
pub mod cashu_wallet;
pub mod coin_select;
pub mod dhke;
pub mod error;
pub mod keys;
pub mod split;
pub mod types;
pub mod views;
