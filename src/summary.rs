//! A flat summary of a consent string: plain numbers, strings and ascending ID lists.

use crate::ast::{lemma_push_contains, push_char};
use crate::consent::{ConsentString, Purpose};
use vstd::prelude::*;

verus! {

/// A consent string with timestamps as deci-seconds, the language as a string, and purposes and
/// granted vendors as ascending lists.
#[derive(Debug, Clone)]
pub struct SConsentString {
    pub version: u8,
    pub created: u64,
    pub last_updated: u64,
    pub cmp_id: u16,
    pub cmp_version: u16,
    pub consent_screen: u8,
    pub consent_language: String,
    pub vendor_list_version: u16,
    pub purposes_allowed: Vec<u8>,
    pub max_vendor_id: u16,
    pub vendor_consents: Vec<u16>,
}

/// Each element of `s` is smaller than the next.
pub open spec fn ascending_u8(s: Seq<u8>) -> bool {
    forall|i: int, j: int| 0 <= i < j < s.len() ==> s[i] < s[j]
}

/// Each element of `s` is smaller than the next.
pub open spec fn ascending_u16(s: Seq<u16>) -> bool {
    forall|i: int, j: int| 0 <= i < j < s.len() ==> s[i] < s[j]
}

impl SConsentString {
    /// The summary of `gdpr`.
    pub fn new(gdpr: &ConsentString) -> (r: SConsentString)
        requires
            gdpr.vendor_consents.len() <= 65536,
        ensures
            r.version == gdpr.version,
            r.created == gdpr.created.deciseconds,
            r.last_updated == gdpr.last_updated.deciseconds,
            r.cmp_id == gdpr.cmp_id,
            r.cmp_version == gdpr.cmp_version,
            r.consent_screen == gdpr.consent_screen,
            r.consent_language@ == gdpr.consent_language@,
            r.vendor_list_version == gdpr.vendor_list_version,
            r.max_vendor_id == gdpr.max_vendor_id,
            ascending_u8(r.purposes_allowed@),
            forall|p: u8|
                r.purposes_allowed@.contains(p) <==> 1 <= p <= 5
                    && gdpr.purposes_allowed@.contains(p as nat),
            ascending_u16(r.vendor_consents@),
            forall|id: u16|
                r.vendor_consents@.contains(id) <==> 1 <= id < gdpr.vendor_consents.len()
                    && gdpr.vendor_consents@[id as int],
    {
        let mut language = String::new();
        push_char(&mut language, gdpr.consent_language[0]);
        push_char(&mut language, gdpr.consent_language[1]);
        proof {
            assert(language@ =~= gdpr.consent_language@);
        }
        let mut purposes: Vec<u8> = Vec::new();
        let mut k: u8 = 1;
        while k <= 5
            invariant
                1 <= k <= 6,
                ascending_u8(purposes@),
                forall|i: int| 0 <= i < purposes@.len() ==> purposes@[i] < k,
                forall|p: u8|
                    #![trigger purposes@.contains(p)]
                    purposes@.contains(p) <==> 1 <= p < k && gdpr.purposes_allowed@.contains(
                        p as nat,
                    ),
            decreases 6 - k,
        {
            if gdpr.purposes_allowed.contains(Purpose::from_number(k)) {
                let ghost before = purposes@;
                purposes.push(k);
                proof {
                    lemma_push_contains(before, k);
                }
            }
            k = k + 1;
        }
        let v = &gdpr.vendor_consents;
        let mut ids: Vec<u16> = Vec::new();
        let mut i: usize = 1;
        while i < v.len()
            invariant
                1 <= i,
                i <= v.len() || v.len() == 0,
                v.len() <= 65536,
                ascending_u16(ids@),
                forall|j: int| 0 <= j < ids@.len() ==> (ids@[j] as int) < i,
                forall|id: u16|
                    #![trigger ids@.contains(id)]
                    ids@.contains(id) <==> 1 <= id < i && id < v.len() && v@[id as int],
            decreases v.len() - i,
        {
            if v[i] {
                let ghost before = ids@;
                ids.push(i as u16);
                proof {
                    lemma_push_contains(before, i as u16);
                }
            }
            i = i + 1;
        }
        SConsentString {
            version: gdpr.version,
            created: gdpr.created.deciseconds,
            last_updated: gdpr.last_updated.deciseconds,
            cmp_id: gdpr.cmp_id,
            cmp_version: gdpr.cmp_version,
            consent_screen: gdpr.consent_screen,
            consent_language: language,
            vendor_list_version: gdpr.vendor_list_version,
            purposes_allowed: purposes,
            max_vendor_id: gdpr.max_vendor_id,
            vendor_consents: ids,
        }
    }
}

} // verus!
