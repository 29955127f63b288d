//! Real-estate records and the tables a regression is fitted on.

use vstd::prelude::*;

verus! {

/// One property on the market. Every quantity is held as a whole number of
/// the unit that the caller keeps its books in.
#[derive(Clone, Copy, Debug, PartialEq, Eq, Structural)]
pub struct Property {
    pub area_sqft: i64,
    pub bedrooms: i64,
    pub bathrooms: i64,
    pub stories: i64,
    pub main_road: i64,
    pub guestroom: i64,
    pub basement: i64,
    pub hot_water_heating: i64,
    pub air_conditioning: i64,
    pub parking: i64,
    pub prefarea: i64,
    pub furnishing_status: i64,
    pub price: i64,
}

impl Property {
    /// The features of the property in the order of the columns of a feature
    /// table: everything but the price.
    pub open spec fn features(self) -> Seq<i64> {
        seq![
            self.area_sqft,
            self.bedrooms,
            self.bathrooms,
            self.stories,
            self.main_road,
            self.guestroom,
            self.basement,
            self.hot_water_heating,
            self.air_conditioning,
            self.parking,
            self.prefarea,
            self.furnishing_status,
        ]
    }

    /// The number of features of a property.
    pub fn feature_count() -> (count: usize)
        ensures
            count == 12,
    {
        12
    }

    /// The features of the property, in the order of the columns.
    pub fn to_features(&self) -> (features: Vec<i64>)
        ensures
            features@ == self.features(),
    {
        let mut features: Vec<i64> = Vec::new();
        features.push(self.area_sqft);
        features.push(self.bedrooms);
        features.push(self.bathrooms);
        features.push(self.stories);
        features.push(self.main_road);
        features.push(self.guestroom);
        features.push(self.basement);
        features.push(self.hot_water_heating);
        features.push(self.air_conditioning);
        features.push(self.parking);
        features.push(self.prefarea);
        features.push(self.furnishing_status);
        assert(features@ =~= self.features());
        features
    }
}

/// The feature table of `properties`: one row of features for each.
pub open spec fn feature_rows(properties: Seq<Property>) -> Seq<Seq<i64>> {
    Seq::new(properties.len(), |i: int| properties[i].features())
}

/// The prices of `properties`, in order.
pub open spec fn prices(properties: Seq<Property>) -> Seq<i64> {
    Seq::new(properties.len(), |i: int| properties[i].price)
}

/// Prepares real-estate data for a regression.
pub struct DataLoader;

impl DataLoader {
    /// The feature table and the target column of `properties`: row `i` of
    /// the table holds the features of property `i`, entry `i` of the
    /// column its price.
    pub fn to_arrays(properties: &[Property]) -> (tables: (Vec<Vec<i64>>, Vec<i64>))
        ensures
            crate::sequences::rows(tables.0@) == feature_rows(properties@),
            tables.1@ == prices(properties@),
    {
        let mut x: Vec<Vec<i64>> = Vec::new();
        let mut y: Vec<i64> = Vec::new();
        let mut i: usize = 0;
        while i < properties.len()
            invariant
                0 <= i <= properties@.len(),
                x@.len() == i,
                y@.len() == i,
                forall|k: int| 0 <= k < i ==> (#[trigger] x@[k])@ == properties@[k].features(),
                forall|k: int| 0 <= k < i ==> #[trigger] y@[k] == properties@[k].price,
            decreases properties@.len() - i,
        {
            let property = &properties[i];
            x.push(property.to_features());
            y.push(property.price);
            i += 1;
        }
        assert(crate::sequences::rows(x@) =~= feature_rows(properties@));
        assert(y@ =~= prices(properties@));
        (x, y)
    }
}

} // verus!
