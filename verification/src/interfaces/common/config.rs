//! The configuration that every oracle shares: the router it asks for prices,
//! whether it is enabled, and the keys it supports.
use vstd::prelude::*;
use vstd::string::*;
use crate::collections::StrSet;
use crate::common::{Contract, StdError, StdResult};
use crate::common::error::CommonOracleError;

verus! {

#[derive(Clone, Debug)]
pub struct CommonConfig {
    pub router: Contract,
    pub enabled: bool,
}

pub struct CommonConfigResponse {
    pub config: CommonConfig,
    pub supported_keys: Vec<String>,
}

#[derive(Clone, Copy, Debug, PartialEq, Eq, Structural)]
pub enum BotPermission {
    UpdateStrideRates,
    UpdatePersistenceRates,
    UpdateQuicksilverRates,
    UpdateLidoRates,
    UpdateIstPrice,
}

impl BotPermission {
    /// The name of the permission in the admin contract.
    pub open spec fn name(&self) -> Seq<char> {
        "SHADE_ORACLES_"@ + match self {
            BotPermission::UpdateStrideRates => "STRIDE_RATES_BOT"@,
            BotPermission::UpdatePersistenceRates => "PERSISTENCE_RATES_BOT"@,
            BotPermission::UpdateQuicksilverRates => "QUICKSILVER_RATES_BOT"@,
            BotPermission::UpdateLidoRates => "LIDO_RATES_BOT"@,
            BotPermission::UpdateIstPrice => "IST_PRICE_BOT"@,
        }
    }

    pub fn to_string(&self) -> (r: String)
        ensures
            r@ == self.name(),
    {
        let prefix = String::from_str("SHADE_ORACLES_");
        match self {
            BotPermission::UpdateStrideRates => prefix.concat("STRIDE_RATES_BOT"),
            BotPermission::UpdatePersistenceRates => prefix.concat("PERSISTENCE_RATES_BOT"),
            BotPermission::UpdateQuicksilverRates => prefix.concat("QUICKSILVER_RATES_BOT"),
            BotPermission::UpdateLidoRates => prefix.concat("LIDO_RATES_BOT"),
            BotPermission::UpdateIstPrice => prefix.concat("IST_PRICE_BOT"),
        }
    }
}

impl CommonConfig {
    /// A new enabled configuration for the (validated) router, with the empty
    /// set of supported keys that it starts with.
    pub fn init(router: Contract) -> (r: (Self, StrSet))
        ensures
            r.0.router == router,
            r.0.enabled,
            r.1.view().is_empty(),
    {
        (CommonConfig { router, enabled: true }, StrSet::new())
    }

    /// Fails where the router could not price `symbol`; `priced` is whether
    /// the router's price query for it succeeded.
    pub fn require_valid_router_symbol(&self, symbol: &str, priced: bool) -> (r: StdResult<()>)
        ensures
            r is Ok <==> priced,
            r matches Err(e) ==> e.is_generic("Failed to query price for "@ + symbol@ + " in router."@),
    {
        if !priced {
            Err(CommonOracleError::InvalidRouterSymbol(String::from_str(symbol)).into_std())
        } else {
            Ok(())
        }
    }

    /// Fails where `key` is not a supported key.
    pub fn require_supported_key(supported_keys: &StrSet, key: &String) -> (r: StdResult<()>)
        ensures
            r is Ok <==> supported_keys.view().contains(key@),
            r matches Err(e) ==> e.is_generic(key@ + " not in supported keys."@),
    {
        if !supported_keys.contains(key) {
            return Err(CommonOracleError::NotSupportedKey(key.clone()).into_std());
        }
        Ok(())
    }

    /// Adds `key` to the supported keys.
    pub fn add_supported_key(supported_keys: &mut StrSet, key: &String) -> (r: StdResult<()>)
        ensures
            r is Ok,
            final(supported_keys).view() == old(supported_keys).view().insert(key@),
    {
        let _ = supported_keys.insert(key.clone());
        Ok(())
    }

    /// Sets the status where one is given and the (validated) router where
    /// one is given.
    pub fn update_config(&mut self, status: Option<bool>, router: Option<Contract>) -> (r: StdResult<()>)
        ensures
            r is Ok,
            final(self).router == (match router {
                Some(c) => c,
                None => old(self).router,
            }),
            final(self).enabled == (match status {
                Some(s) => s,
                None => old(self).enabled,
            }),
    {
        if let Some(router) = router {
            self.router = router;
        }
        self.enabled = match status {
            Some(s) => s,
            None => self.enabled,
        };
        Ok(())
    }

    /// Fails where `sender` lacks `permission`; `has_permission` is what the
    /// admin contract answered for them.
    pub fn require_permission(&self, sender: &String, permission: &String, has_permission: bool) -> (r: StdResult<()>)
        ensures
            r is Ok <==> has_permission,
            r matches Err(e) ==> e.is_generic(sender@ + " does not have permission "@ + permission@ + "."@),
    {
        if has_permission {
            Ok(())
        } else {
            Err(CommonOracleError::UnauthorizedPermission(sender.clone(), permission.clone()).into_std())
        }
    }

    pub fn require_enabled(&self) -> (r: StdResult<()>)
        ensures
            r is Ok <==> self.enabled,
            r matches Err(e) ==> e.is_generic(
                "This oracle has been disabled. Only operation available is changing status."@,
            ),
    {
        if self.enabled {
            Ok(())
        } else {
            Err(CommonOracleError::DisabledOracle.into_std())
        }
    }

    /// The configuration with the list of supported keys.
    pub fn get_resp(&self, supported_keys: &StrSet) -> (r: StdResult<CommonConfigResponse>)
        ensures
            r matches Ok(resp) && resp.config.router == self.router && resp.config.enabled == self.enabled
                && resp.supported_keys@.len() == supported_keys.view().len()
                && (forall|k: Seq<char>| #[trigger] supported_keys.view().contains(k) <==> exists|i: int|
                    0 <= i < resp.supported_keys@.len() && resp.supported_keys@[i]@ == k),
    {
        let n = supported_keys.len();
        let mut keys: Vec<String> = Vec::new();
        let mut i: usize = 0;
        while i < n
            invariant
                i <= n,
                n == supported_keys.key_seq().len(),
                keys@.len() == i,
                forall|j: int| 0 <= j < i ==> #[trigger] keys@[j]@ == supported_keys.key_seq()[j],
            decreases n - i,
        {
            keys.push(supported_keys.key_at(i).clone());
            i = i + 1;
        }
        proof {
            assert forall|k: Seq<char>| #[trigger] supported_keys.view().contains(k) <==> exists|i: int|
                0 <= i < keys@.len() && keys@[i]@ == k by {
                if supported_keys.view().contains(k) {
                    assert(supported_keys.key_seq().contains(k));
                    let j = choose|j: int| 0 <= j < supported_keys.key_seq().len() && supported_keys.key_seq()[j] == k;
                    assert(keys@[j]@ == k);
                }
                if exists|i: int| 0 <= i < keys@.len() && keys@[i]@ == k {
                    let j = choose|j: int| 0 <= j < keys@.len() && keys@[j]@ == k;
                    assert(supported_keys.key_seq()[j] == k);
                    assert(supported_keys.key_seq().contains(k));
                }
            }
        }
        let config = CommonConfig { router: self.router.duplicate(), enabled: self.enabled };
        Ok(CommonConfigResponse { config, supported_keys: keys })
    }
}

} // verus!
