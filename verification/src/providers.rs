//! The sources of background tiles.

use crate::text::{decimal_text, push_decimal};
use vstd::prelude::*;
use vstd::string::StringExecFns;

verus! {

/// A source of background tiles.
#[derive(Debug, Clone, Copy, PartialEq, Eq, Hash, Structural)]
pub enum Provider {
    OpenStreetMap,
    MapboxSatellite,
    EsriWorldImagery,
    Bavaria20cm,
}

impl Default for Provider {
    fn default() -> (r: Self)
        ensures
            r == Provider::OpenStreetMap,
    {
        Provider::OpenStreetMap
    }
}

/// The place of a tile in the pyramid of tiles.
#[derive(Debug, Clone, Copy, PartialEq, Eq, Structural)]
pub struct TileId {
    pub x: u32,
    pub y: u32,
    pub zoom: u8,
}

/// The world imagery of Esri.
#[derive(Debug, Clone, Copy)]
pub struct EsriWorldImagery;

impl EsriWorldImagery {
    /// The address of a tile: the address of the service, then zoom, row
    /// and column.
    pub fn tile_url(&self, tile_id: TileId) -> (r: String)
        ensures
            r@
                == "https://services.arcgisonline.com/arcgis/rest/services/World_Imagery/MapServer/tile/"@
                + decimal_text(tile_id.zoom as nat) + "/"@ + decimal_text(tile_id.y as nat) + "/"@
                + decimal_text(tile_id.x as nat),
    {
        let mut r = String::from_str(
            "https://services.arcgisonline.com/arcgis/rest/services/World_Imagery/MapServer/tile/",
        );
        push_decimal(&mut r, tile_id.zoom as u64);
        r.append("/");
        push_decimal(&mut r, tile_id.y as u64);
        r.append("/");
        push_decimal(&mut r, tile_id.x as u64);
        r
    }

    pub fn attribution_text(&self) -> (s: &'static str)
        ensures
            s@ == "Esri, Maxar, Earthstar Geographics, and the GIS User Community"@,
    {
        "Esri, Maxar, Earthstar Geographics, and the GIS User Community"
    }

    pub fn attribution_url(&self) -> (s: &'static str)
        ensures
            s@ == "https://services.arcgisonline.com/ArcGIS/rest/services/World_Imagery/MapServer"@,
    {
        "https://services.arcgisonline.com/ArcGIS/rest/services/World_Imagery/MapServer"
    }

    pub fn tile_size(&self) -> (r: u32)
        ensures
            r == 256,
    {
        256
    }

    pub fn max_zoom(&self) -> (r: u8)
        ensures
            r == 19,
    {
        19
    }
}

/// The aerial photographs of Bavaria at 20 cm.
#[derive(Debug, Clone, Copy)]
pub struct Bavaria20cm;

impl Bavaria20cm {
    pub fn attribution_text(&self) -> (s: &'static str)
        ensures
            s@
                == "Digitales Orthophoto RGB 20cm\nKostenfreie Geodaten der Bayerischen Vermessungsverwaltung\nLicensed under CC BY 4.0"@,
    {
        "Digitales Orthophoto RGB 20cm\nKostenfreie Geodaten der Bayerischen Vermessungsverwaltung\nLicensed under CC BY 4.0"
    }

    pub fn attribution_url(&self) -> (s: &'static str)
        ensures
            s@
                == "https://geodaten.bayern.de/opengeodata/OpenDataDetail.html?pn=dop20rgb&active=SERVICE"@,
    {
        "https://geodaten.bayern.de/opengeodata/OpenDataDetail.html?pn=dop20rgb&active=SERVICE"
    }

    pub fn tile_size(&self) -> (r: u32)
        ensures
            r == 256,
    {
        256
    }

    pub fn max_zoom(&self) -> (r: u8)
        ensures
            r == 20,
    {
        20
    }
}

} // verus!
