//! The record and request/response shapes the service works with.

use vstd::prelude::*;

verus! {

/// One transaction record of the upstream report.
#[derive(Debug)]
pub struct Transaksi {
    pub tanggal_transaksi: String,
    pub waktu_transaksi: String,
    pub keterangan: String,
    pub total_tagihan: i64,
    pub no_nota: String,
}

impl Clone for Transaksi {
    fn clone(&self) -> (r: Self)
        ensures
            r == *self,
    {
        Transaksi {
            tanggal_transaksi: self.tanggal_transaksi.clone(),
            waktu_transaksi: self.waktu_transaksi.clone(),
            keterangan: self.keterangan.clone(),
            total_tagihan: self.total_tagihan,
            no_nota: self.no_nota.clone(),
        }
    }
}

/// A requested date range together with the session cookie to fetch with.
#[derive(Debug)]
pub struct Payload {
    pub from: String,
    pub to: String,
    pub cookie: String,
}

impl Clone for Payload {
    fn clone(&self) -> (r: Self)
        ensures
            r == *self,
    {
        Payload { from: self.from.clone(), to: self.to.clone(), cookie: self.cookie.clone() }
    }
}

/// A record list with its count, as returned to clients.
#[derive(Debug)]
pub struct TransaksiResponse {
    pub total_transaksi: usize,
    pub data: Vec<Transaksi>,
}

/// A record list with the total count the upstream server reported.
#[derive(Debug)]
pub struct DebugResponse {
    pub total_transaksi: usize,
    pub data: Vec<Transaksi>,
}

/// The liveness answer of the service root.
#[derive(Debug)]
pub struct Health {
    pub status: &'static str,
}

/// The echoed message of the echo endpoint.
#[derive(Debug)]
pub struct EchoResponse {
    pub echoed: String,
}

/// The message accepted by the echo endpoint.
#[derive(Debug)]
pub struct EchoPayload {
    pub message: String,
}

/// The generic response envelope of the job endpoints.
#[derive(Debug)]
pub struct ApiResponse<T> {
    pub status: String,
    pub job_id: Option<String>,
    pub data: Option<T>,
    pub message: Option<String>,
}

/// The response of the cached-data endpoint.
#[derive(Debug)]
pub struct CachedDataResponse {
    pub status: String,
    pub job_id: String,
    pub data: TransaksiResponse,
    pub message: Option<String>,
}

/// The credentials accepted by the login endpoint.
#[derive(Debug)]
pub struct LoginRequest {
    pub username: String,
    pub password: String,
}

impl Clone for LoginRequest {
    fn clone(&self) -> (r: Self)
        ensures
            r == *self,
    {
        LoginRequest { username: self.username.clone(), password: self.password.clone() }
    }
}

} // verus!
