use vstd::prelude::*;
use vstd::string::StringExecFns;
use crate::utils::dec_of;
use crate::utils::u64_to_dec;

verus! {

/// The shape of the spending condition that an output's address was derived
/// from.
#[derive(Clone, Copy, Debug, PartialEq, Eq, Structural)]
pub enum AddressType {
    NonStandard,
    P2pkh,
    P2sh,
    Bech32,
}

/// One decoded unspent output, ready for the output sinks.
#[derive(Clone, Debug)]
pub struct Utxo {
    pub txid: String,
    pub vout: u64,
    pub coinbase: u64,
    pub height: u64,
    pub amount: u64,
    pub address: String,
    pub address_type: AddressType,
    pub sigscript: String,
}

impl Utxo {
    /// The CSV data line for this record: the fields in header order, comma
    /// joined, ending in a newline.
    pub open spec fn csv_line_chars(self) -> Seq<char> {
        self.txid@ + seq![','] + dec_of(self.vout as nat) + seq![','] + dec_of(self.amount as nat)
            + seq![','] + self.address@ + seq![','] + dec_of(self.height as nat) + seq![',']
            + dec_of(self.coinbase as nat) + seq![','] + self.sigscript@ + seq!['\n']
    }

    /// The line stored under the record's address in the secondary store:
    /// the same fields with the sigscript before height and coinbase, and no
    /// trailing newline.
    pub open spec fn rocksdb_line_chars(self) -> Seq<char> {
        self.txid@ + seq![','] + dec_of(self.vout as nat) + seq![','] + dec_of(self.amount as nat)
            + seq![','] + self.address@ + seq![','] + self.sigscript@ + seq![','] + dec_of(
            self.height as nat,
        ) + seq![','] + dec_of(self.coinbase as nat)
    }

    pub fn new(
        txid: String,
        vout: u64,
        coinbase: u64,
        height: u64,
        amount: u64,
        address_type: AddressType,
        address: String,
        sigscript: String,
    ) -> (r: Utxo)
        ensures
            r.txid == txid,
            r.vout == vout,
            r.coinbase == coinbase,
            r.height == height,
            r.amount == amount,
            r.address_type == address_type,
            r.address == address,
            r.sigscript == sigscript,
    {
        Utxo { txid, vout, coinbase, height, amount, address_type, address, sigscript }
    }

    /// Renders the line written to the secondary store.
    pub fn get_rocksdb_line(&self) -> (r: String)
        ensures
            r@ == self.rocksdb_line_chars(),
    {
        proof {
            reveal_strlit(",");
        }
        let mut line = String::new();
        line.append(self.txid.as_str());
        line.append(",");
        let vout_s = u64_to_dec(self.vout);
        line.append(vout_s.as_str());
        line.append(",");
        let amount_s = u64_to_dec(self.amount);
        line.append(amount_s.as_str());
        line.append(",");
        line.append(self.address.as_str());
        line.append(",");
        line.append(self.sigscript.as_str());
        line.append(",");
        let height_s = u64_to_dec(self.height);
        line.append(height_s.as_str());
        line.append(",");
        let coinbase_s = u64_to_dec(self.coinbase);
        line.append(coinbase_s.as_str());
        proof {
            assert(line@ =~= self.rocksdb_line_chars());
        }
        line
    }

    /// Renders the CSV data line.
    pub fn get_csv_line(&self) -> (r: String)
        ensures
            r@ == self.csv_line_chars(),
    {
        proof {
            reveal_strlit(",");
            reveal_strlit("\n");
        }
        let mut line = String::new();
        line.append(self.txid.as_str());
        line.append(",");
        let vout_s = u64_to_dec(self.vout);
        line.append(vout_s.as_str());
        line.append(",");
        let amount_s = u64_to_dec(self.amount);
        line.append(amount_s.as_str());
        line.append(",");
        line.append(self.address.as_str());
        line.append(",");
        let height_s = u64_to_dec(self.height);
        line.append(height_s.as_str());
        line.append(",");
        let coinbase_s = u64_to_dec(self.coinbase);
        line.append(coinbase_s.as_str());
        line.append(",");
        line.append(self.sigscript.as_str());
        line.append("\n");
        proof {
            assert(line@ =~= self.csv_line_chars());
        }
        line
    }
}

/// Merges a record's line into what the secondary store already holds under
/// its address: the line alone where nothing was stored, else the stored
/// text, a newline, and the line.
pub fn merged_line(current: &Option<String>, line: &String) -> (r: String)
    ensures
        current is Some ==> r@ == current->0@ + seq!['\n'] + line@,
        current is None ==> r@ == line@,
{
    match current {
        Some(stored) => {
            proof {
                reveal_strlit("\n");
            }
            let mut merged = stored.clone();
            merged.append("\n");
            merged.append(line.as_str());
            proof {
                assert(merged@ =~= stored@ + seq!['\n'] + line@);
            }
            merged
        },
        None => line.clone(),
    }
}

} // verus!
